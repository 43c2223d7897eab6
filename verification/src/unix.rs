//! macOS and Linux: where things are, and what is made of what was seen there.

use vstd::prelude::*;

use crate::category::Category;
use crate::clock::Timestamp;
use crate::measure::Measured;
use crate::path::{
    a_joined_path_is_written_behind, an_extension_follows_the_last_dot,
    every_extension_follows_a_dot, extension_of, is_inside, lemma_joined_tail, lemma_spelt_tail,
    part_text, path_descend, path_extension, path_join, path_of, path_parent, same_path, tail_char,
    FsPath, Part, PartView, Parts, PathView,
};
use crate::platform::{
    common_software_roots, env_path, extend_paths, path_view, runtime_roots, set_path,
    shared_software_roots, text_view, version_manager_roots,
};
use crate::scanner::under_any;
use crate::targets::{
    a_claim_stands, claims, has_path, keep_present, lists, push_unclaimed, seen_on_disk, with_unclaimed,
    Target, TargetView,
    what_was_seen_is_kept,
};
use crate::text::{
    before, lines, lines_of, starts_with, text_before, text_is, trim, trimmed, views,
};

verus! {

broadcast use crate::text::lemma_views_push;

/// Name of the environment variable that points at the user's home, used only
/// to write a sensible error message when it is missing.
pub const HOME_VAR: &'static str = "$HOME";

/// The user's home directory, from `$HOME`.
pub fn home_dir(home: Option<FsPath>) -> (r: Option<FsPath>)
    ensures
        path_view(r) == set_path(path_view(home)),
{
    env_path(home)
}

/// Where the full untruncated report is written.
pub fn report_path() -> (r: FsPath)
    ensures
        r@ == path_of("/tmp/diskscout-report.txt"@),
{
    FsPath::new("/tmp/diskscout-report.txt")
}

pub open spec fn hints() -> Seq<Seq<char>> {
    seq![
        "Old Rust toolchains: rustup toolchain list, then rustup toolchain uninstall <name>"@,
        "Simulator runtimes under /Library need sudo, or: xcrun simctl runtime delete --all"@,
        "Homebrew's own files: brew cleanup"@,
        "Conda's package cache: conda clean --all"@,
    ]
}

/// Extra advice printed under the report footer, for reclaimable space that
/// this tool can measure but should not delete itself.
pub fn extra_hints() -> (r: Vec<&'static str>)
    ensures
        views(r@) == hints(),
{
    let r: Vec<&'static str> = vec![
        "Old Rust toolchains: rustup toolchain list, then rustup toolchain uninstall <name>",
        "Simulator runtimes under /Library need sudo, or: xcrun simctl runtime delete --all",
        "Homebrew's own files: brew cleanup",
        "Conda's package cache: conda clean --all",
    ];
    assert(views(r@) =~= hints());
    r
}

// ---------------------------------------------------------------------------
// Files
// ---------------------------------------------------------------------------

/// What the file system says of a file.
#[derive(Debug, Clone, Copy)]
pub struct Metadata {
    pub len: u64,
    /// The 512-byte units allocated.
    pub blocks: u64,
    pub nlink: u64,
    pub dev: u64,
    pub ino: u64,
    pub modified: Option<Timestamp>,
}

pub open spec fn allocated(meta: Metadata) -> int {
    let bytes = if meta.blocks * 512 > u64::MAX {
        u64::MAX as int
    } else {
        meta.blocks * 512
    };
    if bytes < meta.len {
        bytes
    } else {
        meta.len as int
    }
}

/// True for files that report a size but hold no local blocks. There are none
/// that could be told apart here.
pub fn occupies_no_local_space(_meta: &Metadata) -> (r: bool)
    ensures
        !r,
{
    false
}

/// Bytes a file actually occupies. A sparse VM disk or simulator image
/// advertises the size it could grow to, so the logical length invents
/// reclaimable space that deleting cannot return; `st_blocks` counts the
/// 512-byte units really allocated. Capped at the length so block slack cannot
/// push an ordinary file above the figure Windows reports for it.
pub fn size_on_disk(meta: &Metadata) -> (r: u64)
    ensures
        r == allocated(*meta),
        r <= meta.len,
        r <= meta.blocks * 512,
{
    let bytes: u64 = match meta.blocks.checked_mul(512) {
        Some(bytes) => bytes,
        None => u64::MAX,
    };
    if bytes < meta.len {
        bytes
    } else {
        meta.len
    }
}

/// Identifies the allocation behind a file when more than one path shares it.
/// Cargo and pnpm hard-link aggressively, and counting one blob once per link
/// invents space that deleting the tree cannot return.
pub fn hard_link_id(meta: &Metadata) -> (r: Option<(u64, u64)>)
    ensures
        r == (if meta.nlink > 1 {
            Some((meta.dev, meta.ino))
        } else {
            None
        }),
{
    if meta.nlink > 1 {
        Some((meta.dev, meta.ino))
    } else {
        None
    }
}

pub fn measure(meta: &Metadata) -> (r: Measured)
    ensures
        r.size == allocated(*meta),
        r.local,
        r.link == (if meta.nlink > 1 {
            Some((meta.dev, meta.ino))
        } else {
            None
        }),
        r.modified == meta.modified,
{
    Measured {
        size: size_on_disk(meta),
        local: !occupies_no_local_space(meta),
        link: hard_link_id(meta),
        modified: meta.modified,
    }
}

/// The mode of a file with the owner's write bit added, where it is missing. A
/// cache can be deliberately unwritable rather than owned by someone else: Go
/// drops the write bit on every module directory so a build cannot edit its own
/// dependencies, and the delete then fails on the directory, not the file. Only
/// the owner bit is added, so this cannot widen the mode for anyone else, and a
/// denial that really is an ownership problem still fails the retry.
pub fn clear_readonly(mode: u32) -> (r: Option<u32>)
    ensures
        r == writable_mode(mode),
{
    if mode & 0o200 == 0 {
        Some(mode | 0o200)
    } else {
        None
    }
}

pub open spec fn writable_mode(mode: u32) -> Option<u32> {
    if mode & 0o200 == 0 {
        Some(mode | 0o200)
    } else {
        None
    }
}

// ---------------------------------------------------------------------------
// Places the walk keeps out of
// ---------------------------------------------------------------------------

pub open spec fn software_roots(home: PathView) -> Seq<PathView> {
    common_software_roots(home) + seq![
        path_join(home, ".npm-global"@),
        path_of("/usr/local/lib/node_modules"@),
    ]
}

pub fn installed_software_roots(home: &FsPath) -> (r: Vec<FsPath>)
    ensures
        views(r@) == software_roots(home@),
{
    let mut roots = shared_software_roots(home);
    roots.push(home.join(".npm-global"));
    roots.push(FsPath::new("/usr/local/lib/node_modules"));
    assert(views(roots@) =~= software_roots(home@));
    roots
}

/// Where Homebrew and conda keep what they installed. A formula's
/// `node_modules` is the CLI that it installed, and a conda prefix's
/// `__pycache__` belongs to the interpreter it shipped.
pub open spec fn package_prefixes(home: PathView) -> Seq<PathView> {
    seq![
        path_of("/opt/homebrew"@),
        path_of("/usr/local/Homebrew"@),
        path_of("/usr/local/Cellar"@),
        path_of("/home/linuxbrew/.linuxbrew"@),
        path_of("/opt/anaconda3"@),
        path_of("/opt/miniconda3"@),
        path_of("/opt/miniforge3"@),
        path_join(home, "anaconda3"@),
        path_join(home, "miniconda3"@),
        path_join(home, "miniforge3"@),
    ]
}

pub fn package_manager_prefixes(home: &FsPath) -> (r: Vec<FsPath>)
    ensures
        views(r@) == package_prefixes(home@),
{
    let r: Vec<FsPath> = vec![
        FsPath::new("/opt/homebrew"),
        FsPath::new("/usr/local/Homebrew"),
        FsPath::new("/usr/local/Cellar"),
        FsPath::new("/home/linuxbrew/.linuxbrew"),
        FsPath::new("/opt/anaconda3"),
        FsPath::new("/opt/miniconda3"),
        FsPath::new("/opt/miniforge3"),
        home.join("anaconda3"),
        home.join("miniconda3"),
        home.join("miniforge3"),
    ];
    assert(views(r@) =~= package_prefixes(home@));
    r
}

pub open spec fn fixed_skips(home: PathView) -> Seq<PathView> {
    seq![
        path_of("/System"@),
        path_of("/private"@),
        path_of("/dev"@),
        path_of("/Volumes"@),
        path_of("/proc"@),
        path_join(home, "Library"@),
        path_join(home, ".Trash"@),
        path_join(home, "Library/CloudStorage"@),
        path_join(home, "Library/Mobile Documents"@),
        path_join(home, "Library/Group Containers"@),
    ]
}

/// The roots that the walk does not descend into.
pub open spec fn default_skips(home: PathView) -> Seq<PathView> {
    fixed_skips(home) + package_prefixes(home) + software_roots(home) + version_manager_roots(home)
}

pub fn skip_paths(home: &FsPath) -> (r: Vec<FsPath>)
    ensures
        views(r@) == default_skips(home@),
{
    let mut skip: Vec<FsPath> = vec![
        FsPath::new("/System"),
        FsPath::new("/private"),
        FsPath::new("/dev"),
        FsPath::new("/Volumes"),
        FsPath::new("/proc"),
        home.join("Library"),
        home.join(".Trash"),
        // Every cloud account is mounted here as placeholders, iCloud Drive at
        // the second path. Reading one downloads the file it stands for, so a
        // walk would pull entire accounts onto the disk it is meant to free.
        home.join("Library/CloudStorage"),
        home.join("Library/Mobile Documents"),
        // Shared between an app and its extensions, which is where a messaging
        // app keeps the only copy of received media and a podcast app keeps
        // downloaded episodes, both under a directory named Cache.
        home.join("Library/Group Containers"),
    ];
    assert(views(skip@) =~= fixed_skips(home@));
    extend_paths(&mut skip, package_manager_prefixes(home));
    extend_paths(&mut skip, installed_software_roots(home));
    extend_paths(&mut skip, runtime_roots(home));
    skip
}

/// Directories searched for a diskscout checkout.
pub fn workspace_roots(home: &FsPath) -> (r: Vec<FsPath>)
    ensures
        views(r@) == seq![path_join(home@, "Developer"@)],
{
    let r: Vec<FsPath> = vec![home.join("Developer")];
    assert(views(r@) =~= seq![path_join(home@, "Developer"@)]);
    r
}

// ---------------------------------------------------------------------------
// Fixed targets
// ---------------------------------------------------------------------------

pub open spec fn derived_data_dir(home: PathView, resolved: Option<PathView>) -> PathView {
    match resolved {
        Some(path) => path,
        None => path_join(home, "Library/Developer/Xcode/DerivedData"@),
    }
}

/// The fixed places to look at. `resolved` is where the DerivedData directory
/// really is, if it could be resolved.
pub open spec fn candidates(home: PathView, resolved: Option<PathView>) -> Seq<TargetView> {
    seq![
        (derived_data_dir(home, resolved), Category::XcodeDerivedData),
        (path_join(home, "Library/Developer/XCTestDevices"@), Category::XcTestDevices),
        (path_join(home, "Library/Developer/CoreSimulator/Devices"@), Category::IosSimulators),
        (path_of("/Library/Developer/CoreSimulator/Caches"@), Category::SimulatorRuntimes),
        (path_of("/Library/Developer/CoreSimulator/Images"@), Category::SimulatorRuntimes),
        (path_join(home, "Library/Developer/Xcode/iOS DeviceSupport"@), Category::XcodeDeviceSupport),
        (path_join(home, "Library/Developer/Xcode/watchOS DeviceSupport"@), Category::XcodeDeviceSupport),
        (path_join(home, "Library/Developer/Xcode/tvOS DeviceSupport"@), Category::XcodeDeviceSupport),
        (path_join(home, "Library/Developer/Xcode/DocumentationCache"@), Category::XcodeCaches),
        (path_join(home, "Library/Developer/XcodeBuildMCP/workspaces"@), Category::XcodeCaches),
        (path_join(home, "Library/Application Support/MobileSync/Backup"@), Category::IphoneBackups),
        (path_join(home, "Library/Application Support/FileProvider"@), Category::CloudMirror),
        (path_join(home, "Library/Application Support/Google/DriveFS"@), Category::CloudMirror),
        (path_join(home, "Library/Containers/com.apple.photoanalysisd/Data/Library/Caches"@), Category::ExpensiveCache),
        (path_join(home, "Library/Containers/com.apple.mediaanalysisd/Data/Library/Caches"@), Category::ExpensiveCache),
        (path_join(home, "Library/Containers/com.apple.texttospeech.SiriAUSP/Data/Library/Caches"@), Category::ExpensiveCache),
        (path_join(home, "Library/Containers/com.docker.docker/Data"@), Category::DockerData),
        (path_join(home, "Library/Android/sdk"@), Category::AndroidSdk),
        (path_join(home, ".android/avd"@), Category::AndroidEmulator),
        (path_join(home, ".npm/_cacache"@), Category::NpmCache),
        (path_join(home, ".cache/uv"@), Category::UvCache),
        (path_join(home, "Library/Caches/uv"@), Category::UvCache),
        (path_join(home, ".cache/pip"@), Category::PipCache),
        (path_join(home, ".cache/yarn"@), Category::YarnPnpmCache),
        (path_join(home, "Library/Caches/Yarn"@), Category::YarnPnpmCache),
        (path_join(home, ".local/share/pnpm/store"@), Category::YarnPnpmCache),
        (path_join(home, "Library/pnpm/store"@), Category::YarnPnpmCache),
        (path_join(home, ".bun/install/cache"@), Category::YarnPnpmCache),
        (path_join(home, ".nuget/packages"@), Category::NugetCache),
        (path_join(home, ".cargo/registry"@), Category::CargoRegistry),
        (path_join(home, ".cargo/git"@), Category::CargoRegistry),
        (path_join(home, ".gradle/caches"@), Category::GradleCache),
        (path_join(home, ".m2/repository"@), Category::MavenCache),
        (path_join(home, "go/pkg/mod"@), Category::GoModCache),
    ]
}

/// The fixed places whose existence has to be looked up.
pub fn system_candidates(home: &FsPath, resolved: &Option<FsPath>) -> (r: Vec<Target>)
    ensures
        views(r@) == candidates(home@, path_view(*resolved)),
{
    // Resolve symlink so ~/.build_caches/xcode and the DerivedData symlink
    // don't both end up in the list and get double-counted.
    let derived_data = match resolved {
        Some(path) => path.clone(),
        None => home.join("Library/Developer/Xcode/DerivedData"),
    };
    let r: Vec<Target> = vec![
        (derived_data, Category::XcodeDerivedData),
        (home.join("Library/Developer/XCTestDevices"), Category::XcTestDevices),
        (home.join("Library/Developer/CoreSimulator/Devices"), Category::IosSimulators),
        // Root-owned, so a delete needs sudo; it is reported either way because
        // a stale runtime is the largest thing Xcode leaves outside $HOME.
        (FsPath::new("/Library/Developer/CoreSimulator/Caches"), Category::SimulatorRuntimes),
        (FsPath::new("/Library/Developer/CoreSimulator/Images"), Category::SimulatorRuntimes),
        (home.join("Library/Developer/Xcode/iOS DeviceSupport"), Category::XcodeDeviceSupport),
        (home.join("Library/Developer/Xcode/watchOS DeviceSupport"), Category::XcodeDeviceSupport),
        (home.join("Library/Developer/Xcode/tvOS DeviceSupport"), Category::XcodeDeviceSupport),
        (home.join("Library/Developer/Xcode/DocumentationCache"), Category::XcodeCaches),
        (home.join("Library/Developer/XcodeBuildMCP/workspaces"), Category::XcodeCaches),
        (home.join("Library/Application Support/MobileSync/Backup"), Category::IphoneBackups),
        (home.join("Library/Application Support/FileProvider"), Category::CloudMirror),
        (home.join("Library/Application Support/Google/DriveFS"), Category::CloudMirror),
        // Claimed ahead of the generic container sweep below so they keep this
        // category rather than the deletable one.
        (home.join("Library/Containers/com.apple.photoanalysisd/Data/Library/Caches"), Category::ExpensiveCache),
        (home.join("Library/Containers/com.apple.mediaanalysisd/Data/Library/Caches"), Category::ExpensiveCache),
        (home.join("Library/Containers/com.apple.texttospeech.SiriAUSP/Data/Library/Caches"), Category::ExpensiveCache),
        (home.join("Library/Containers/com.docker.docker/Data"), Category::DockerData),
        (home.join("Library/Android/sdk"), Category::AndroidSdk),
        (home.join(".android/avd"), Category::AndroidEmulator),
        (home.join(".npm/_cacache"), Category::NpmCache),
        (home.join(".cache/uv"), Category::UvCache),
        (home.join("Library/Caches/uv"), Category::UvCache),
        (home.join(".cache/pip"), Category::PipCache),
        (home.join(".cache/yarn"), Category::YarnPnpmCache),
        (home.join("Library/Caches/Yarn"), Category::YarnPnpmCache),
        (home.join(".local/share/pnpm/store"), Category::YarnPnpmCache),
        (home.join("Library/pnpm/store"), Category::YarnPnpmCache),
        (home.join(".bun/install/cache"), Category::YarnPnpmCache),
        (home.join(".nuget/packages"), Category::NugetCache),
        (home.join(".cargo/registry"), Category::CargoRegistry),
        (home.join(".cargo/git"), Category::CargoRegistry),
        (home.join(".gradle/caches"), Category::GradleCache),
        (home.join(".m2/repository"), Category::MavenCache),
        (home.join("go/pkg/mod"), Category::GoModCache),
    ];
    assert(views(r@) =~= candidates(home@, path_view(*resolved)));
    r
}

/// Directories under ~/Library/Caches that the name alone gets wrong.
pub open spec fn held_back(name: Seq<char>) -> Option<Category> {
    if name == "com.apple.bird"@ || name == "CloudKit"@ {
        Some(Category::CloudMirror)
    } else if name == "com.spotify.client"@ || name == "JetBrains"@ || name == "GeoServices"@ {
        Some(Category::ExpensiveCache)
    } else {
        None
    }
}

/// Directories under ~/Library/Caches that the name alone gets wrong. The sweep
/// treats that whole tree as regenerable, which is what it is for, but a few
/// apps put load-bearing state there and one keeps a cloud account's sync
/// record in it.
pub fn held_back_cache(name: &str) -> (r: Option<Category>)
    ensures
        r == held_back(name@),
{
    let name = name.to_owned();
    // bird is the iCloud Drive sync daemon; this is its working state, not
    // a blob cache, and it grows to tens of gigabytes on a synced account.
    if text_is(&name, "com.apple.bird") || text_is(&name, "CloudKit") {
        return Some(Category::CloudMirror);
    }
    // Offline playlists live in here, so clearing it strands someone who
    // downloaded them precisely because they expected to be offline.
    if text_is(&name, "com.spotify.client") {
        return Some(Category::ExpensiveCache);
    }
    // Symbol indexes and local history. Deleting costs a full reindex,
    // which is the same trade DerivedData is already held back for.
    if text_is(&name, "JetBrains") || text_is(&name, "GeoServices") {
        return Some(Category::ExpensiveCache);
    }
    None
}

/// The category of an entry of ~/Library/Caches.
pub open spec fn app_category(name: Seq<char>) -> Category {
    match held_back(name) {
        Some(cat) => cat,
        None => Category::MacOsCaches,
    }
}

/// The folder in ~/Library/Caches that several apps of one vendor share.
pub open spec fn is_vendor_folder(name: PartView) -> bool {
    part_text(name) == "Google"@
}

/// A cache of Chrome, of whatever channel.
pub open spec fn is_chrome(name: Seq<char>) -> bool {
    name == "Chrome"@ || "Chrome "@.is_prefix_of(name)
}

/// The category of an entry of the vendor folder. Chrome's cache sits in there
/// next to Android Studio's, and is held back.
pub open spec fn vendor_category(name: Seq<char>) -> Category {
    if is_chrome(name) {
        Category::ExpensiveCache
    } else {
        app_category(name)
    }
}

/// One target per entry of the vendor folder.
pub open spec fn vendor_targets(dir: PathView, names: Seq<PartView>) -> Seq<TargetView> {
    Seq::new(
        names.len(),
        |i: int| (dir.child(names[i]), vendor_category(part_text(names[i]))),
    )
}

/// What an entry of ~/Library/Caches contributes.
pub open spec fn app_targets(
    caches: PathView,
    name: PartView,
    vendor: Seq<PartView>,
) -> Seq<TargetView> {
    if is_vendor_folder(name) {
        vendor_targets(caches.child(name), vendor)
    } else {
        seq![(caches.child(name), app_category(part_text(name)))]
    }
}

/// One target per app that has a cache in ~/Library/Caches.
pub open spec fn app_cache_targets(
    caches: PathView,
    names: Seq<PartView>,
    vendor: Seq<PartView>,
) -> Seq<TargetView>
    decreases names.len(),
{
    if names.len() == 0 {
        Seq::empty()
    } else {
        app_cache_targets(caches, names.drop_last(), vendor) + app_targets(
            caches,
            names.last(),
            vendor,
        )
    }
}

fn category_of_app(name: &str) -> (r: Category)
    ensures
        r == app_category(name@),
{
    match held_back_cache(name) {
        Some(category) => category,
        None => Category::MacOsCaches,
    }
}

fn push_vendor_caches(dir: &FsPath, names: &Vec<Part>, out: &mut Vec<Target>)
    ensures
        views(final(out)@) == views(old(out)@) + vendor_targets(dir@, views(names@)),
{
    let ghost had = views(out@);
    let ghost want = vendor_targets(dir@, views(names@));
    for i in 0..names.len()
        invariant
            want == vendor_targets(dir@, views(names@)),
            views(out@) =~= had + want.take(i as int),
    {
        let name = names[i].text();
        let category = if text_is(&name, "Chrome") || starts_with(name.as_str(), "Chrome ") {
            Category::ExpensiveCache
        } else {
            category_of_app(name.as_str())
        };
        out.push((dir.child(&names[i]), category));
    }
    assert(want.take(want.len() as int) =~= want);
}

/// One entry per app rather than the whole directory, so the report names
/// what is actually large instead of reporting one opaque total. `vendor` are
/// the directories in the folder that Google's apps share.
pub fn app_caches(caches: &FsPath, names: &Vec<Part>, vendor: &Vec<Part>) -> (r: Vec<Target>)
    ensures
        views(r@) == app_cache_targets(caches@, views(names@), views(vendor@)),
{
    let mut out: Vec<Target> = Vec::new();
    let ghost all = views(names@);
    assert(views(out@) =~= app_cache_targets(caches@, all.take(0), views(vendor@)));
    for i in 0..names.len()
        invariant
            all == views(names@),
            views(out@) == app_cache_targets(caches@, all.take(i as int), views(vendor@)),
    {
        assert(all.take(i + 1).drop_last() =~= all.take(i as int));
        let ghost had = views(out@);
        let name = names[i].text();
        if text_is(&name, "Google") {
            push_vendor_caches(&caches.child(&names[i]), vendor, &mut out);
        } else {
            out.push((caches.child(&names[i]), category_of_app(name.as_str())));
        }
        assert(views(out@) =~= had + app_targets(caches@, all[i as int], views(vendor@)));
    }
    assert(all.take(all.len() as int) =~= all);
    out
}

/// Where apps keep their data, and their web caches in it.
pub fn web_cache_roots(home: &FsPath) -> (r: Vec<FsPath>)
    ensures
        views(r@) == seq![path_join(home@, "Library/Application Support"@)],
{
    let r: Vec<FsPath> = vec![home.join("Library/Application Support")];
    assert(views(r@) =~= seq![path_join(home@, "Library/Application Support"@)]);
    r
}

// ---------------------------------------------------------------------------
// Instruments
// ---------------------------------------------------------------------------

pub open spec fn user_dirs(anchor: PathView) -> Option<(PathView, PathView)> {
    if anchor.is_absolute() {
        match path_parent(anchor) {
            Some(base) => Some((path_join(base, "C"@), path_join(base, "T"@))),
            None => None,
        }
    } else {
        None
    }
}

pub open spec fn dirs_view(dirs: Option<(FsPath, FsPath)>) -> Option<(PathView, PathView)> {
    match dirs {
        Some(dirs) => Some((dirs.0@, dirs.1@)),
        None => None,
    }
}

/// The directory that the answers lead to: TMPDIR where it is set, else what
/// getconf printed.
pub open spec fn anchor_dir(tmpdir: Option<PathView>, getconf: Option<Seq<char>>) -> Option<PathView> {
    match tmpdir {
        Some(path) => Some(path),
        None => match getconf {
            Some(text) => Some(path_of(trimmed(text))),
            None => None,
        },
    }
}

pub open spec fn darwin_dirs(
    tmpdir: Option<PathView>,
    getconf: Option<Seq<char>>,
) -> Option<(PathView, PathView)> {
    match anchor_dir(tmpdir, getconf) {
        Some(anchor) => user_dirs(anchor),
        None => None,
    }
}

/// The per-user `C` and `T` roots under /var/folders. launchd exports the temp
/// one as TMPDIR; getconf is the documented way to find them when it is not.
pub fn darwin_user_dirs(tmpdir: &Option<FsPath>, getconf: &Option<String>) -> (r: Option<
    (FsPath, FsPath),
>)
    ensures
        dirs_view(r) == darwin_dirs(path_view(*tmpdir), text_view(*getconf)),
{
    let anchor = match tmpdir {
        Some(path) => path.clone(),
        None => match getconf {
            Some(text) => FsPath::new(trim(text.as_str()).as_str()),
            None => {
                return None;
            },
        },
    };
    if !anchor.is_absolute() {
        return None;
    }
    match anchor.parent() {
        Some(base) => Some((base.join("C"), base.join("T"))),
        None => None,
    }
}

/// The entries of the temp directory that are abandoned recordings.
pub open spec fn loose_traces(temp: PathView, names: Seq<PartView>) -> Seq<TargetView>
    decreases names.len(),
{
    if names.len() == 0 {
        Seq::empty()
    } else {
        let front = loose_traces(temp, names.drop_last());
        let path = temp.child(names.last());
        if path_extension(path) == Some("ktrace"@) {
            front.push((path, Category::InstrumentsTraces))
        } else {
            front
        }
    }
}

pub open spec fn traces(
    dirs: Option<(PathView, PathView)>,
    recordings: bool,
    temp_entries: Seq<PartView>,
) -> Seq<TargetView> {
    match dirs {
        Some(dirs) => {
            let kept = path_join(dirs.0, "com.apple.dt.Instruments"@);
            (if recordings {
                seq![(kept, Category::InstrumentsTraces)]
            } else {
                Seq::empty()
            }) + loose_traces(dirs.1, temp_entries)
        },
        None => Seq::empty(),
    }
}

/// Instruments keeps every recording it has ever taken, and a run that is
/// killed leaves its trace in the temp dir where nothing collects it. Both sit
/// under /var/folders, which the walker never descends into. `recordings` says
/// whether the recordings directory is there.
pub fn instruments_traces(
    dirs: &Option<(FsPath, FsPath)>,
    recordings: bool,
    temp_entries: &Vec<Part>,
) -> (r: Vec<Target>)
    ensures
        views(r@) == traces(dirs_view(*dirs), recordings, views(temp_entries@)),
{
    let mut out: Vec<Target> = Vec::new();
    let (cache, temp) = match dirs {
        Some(dirs) => (&dirs.0, &dirs.1),
        None => {
            assert(views(out@) =~= Seq::empty());
            return out;
        },
    };
    if recordings {
        out.push((cache.join("com.apple.dt.Instruments"), Category::InstrumentsTraces));
    }
    let ghost first = views(out@);
    let ghost names = views(temp_entries@);
    assert(first + loose_traces(temp@, names.take(0)) =~= first);
    for i in 0..temp_entries.len()
        invariant
            names == views(temp_entries@),
            views(out@) == first + loose_traces(temp@, names.take(i as int)),
    {
        assert(names.take(i + 1).drop_last() =~= names.take(i as int));
        let path = temp.child(&temp_entries[i]);
        let ghost had = views(out@);
        let is_trace = match path.extension() {
            Some(ext) => text_is(&ext, "ktrace"),
            None => false,
        };
        if is_trace {
            out.push((path, Category::InstrumentsTraces));
        }
        assert(views(out@) =~= first + loose_traces(temp@, names.take(i + 1)));
    }
    assert(names.take(names.len() as int) =~= names);
    assert(first =~= if recordings {
        seq![(path_join(cache@, "com.apple.dt.Instruments"@), Category::InstrumentsTraces)]
    } else {
        Seq::empty()
    });
    out
}

// ---------------------------------------------------------------------------
// Containers
// ---------------------------------------------------------------------------

/// The identifier on one line of the registry's answer, `<bundle-id>(<version>)`.
pub open spec fn line_bundle(line: Seq<char>) -> Seq<char> {
    trimmed(before(line, '('))
}

pub open spec fn bundles_of(lines: Seq<Seq<char>>) -> Seq<Seq<char>>
    decreases lines.len(),
{
    if lines.len() == 0 {
        Seq::empty()
    } else {
        let front = bundles_of(lines.drop_last());
        if line_bundle(lines.last()).len() > 0 {
            front.push(line_bundle(lines.last()))
        } else {
            front
        }
    }
}

/// Bundle identifiers hosting a File Provider extension. What looks like a
/// cache inside one of these containers is the provider's record of the local
/// mirror, so clearing it makes the provider treat every synced file as unknown
/// and re-download the account. `pluginkit` is the registry macOS itself keeps,
/// which identifies iCloud, OneDrive, Drive and the rest without naming vendors;
/// `output` is what it printed.
pub fn file_provider_bundles(output: &str) -> (r: Vec<String>)
    ensures
        views(r@) == bundles_of(lines_of(output@)),
{
    let all = lines(output);
    let ghost texts = views(all@);
    let mut out: Vec<String> = Vec::new();
    assert(views(out@) =~= bundles_of(texts.take(0)));
    for i in 0..all.len()
        invariant
            texts == views(all@),
            views(out@) == bundles_of(texts.take(i as int)),
    {
        assert(texts.take(i + 1).drop_last() =~= texts.take(i as int));
        let id = trim(text_before(all[i].as_str(), '(').as_str());
        if !id.as_str().is_empty() {
            out.push(id);
        }
    }
    assert(texts.take(texts.len() as int) =~= texts);
    out
}

/// `name` and `id` are the same identifier, or one is a parent of the other.
pub open spec fn related(name: Seq<char>, id: Seq<char>) -> bool {
    ||| id == name
    ||| (name + "."@).is_prefix_of(id)
    ||| (id + "."@).is_prefix_of(name)
}

pub open spec fn belongs_to_provider(name: Seq<char>, providers: Seq<Seq<char>>) -> bool {
    exists|i: int| 0 <= i < providers.len() && related(name, #[trigger] providers[i])
}

/// True when the container belongs to a sync provider, matching the extension's
/// own identifier and the parent app that ships it.
pub fn is_sync_container(name: &str, providers: &Vec<String>) -> (r: bool)
    ensures
        r == belongs_to_provider(name@, views(providers@)),
{
    let own = name.to_owned();
    let mut own_dot = name.to_owned();
    own_dot.append(".");
    let ghost ids = views(providers@);
    for i in 0..providers.len()
        invariant
            ids == views(providers@),
            own@ == name@,
            own_dot@ == name@ + "."@,
            forall|j: int| 0 <= j < i ==> !related(name@, #[trigger] ids[j]),
    {
        let id = &providers[i];
        let mut id_dot = id.clone();
        id_dot.append(".");
        if *id == own || starts_with(id.as_str(), own_dot.as_str()) || starts_with(
            name,
            id_dot.as_str(),
        ) {
            assert(related(name@, ids[i as int]));
            return true;
        }
    }
    false
}

/// An app's container, and whether there is a cache in it.
pub struct Container {
    pub name: Part,
    pub has_cache: bool,
}

#[verifier::ext_equal]
pub struct ContainerView {
    pub name: PartView,
    pub has_cache: bool,
}

impl View for Container {
    type V = ContainerView;

    open spec fn view(&self) -> ContainerView {
        ContainerView { name: self.name@, has_cache: self.has_cache }
    }
}

pub open spec fn container_cache_dir(containers: PathView, name: PartView) -> PathView {
    path_join(containers.child(name), "Data/Library/Caches"@)
}

pub open spec fn container_category(name: PartView, providers: Seq<Seq<char>>) -> Category {
    if belongs_to_provider(part_text(name), providers) {
        Category::CloudMirror
    } else {
        Category::ContainerCaches
    }
}

pub open spec fn container_targets(
    containers: PathView,
    providers: Seq<Seq<char>>,
    entries: Seq<ContainerView>,
) -> Seq<TargetView>
    decreases entries.len(),
{
    if entries.len() == 0 {
        Seq::empty()
    } else {
        let front = container_targets(containers, providers, entries.drop_last());
        let e = entries.last();
        if e.has_cache {
            front.push(
                (container_cache_dir(containers, e.name), container_category(e.name, providers)),
            )
        } else {
            front
        }
    }
}

pub fn container_caches_in(
    containers: &FsPath,
    providers: &Vec<String>,
    entries: &Vec<Container>,
) -> (r: Vec<Target>)
    ensures
        views(r@) == container_targets(containers@, views(providers@), views(entries@)),
{
    let mut out: Vec<Target> = Vec::new();
    let ghost all = views(entries@);
    assert(views(out@) =~= container_targets(containers@, views(providers@), all.take(0)));
    for i in 0..entries.len()
        invariant
            all == views(entries@),
            views(out@) == container_targets(
                containers@,
                views(providers@),
                all.take(i as int),
            ),
    {
        assert(all.take(i + 1).drop_last() =~= all.take(i as int));
        let entry = &entries[i];
        let category = if is_sync_container(entry.name.text().as_str(), providers) {
            Category::CloudMirror
        } else {
            Category::ContainerCaches
        };
        if entry.has_cache {
            let path = containers.child(&entry.name).join("Data/Library/Caches");
            out.push((path, category));
        }
    }
    assert(all.take(all.len() as int) =~= all);
    out
}

/// The caches inside containers, by what the registry answered.
pub open spec fn swept_containers(
    home: PathView,
    answer: Option<Seq<char>>,
    entries: Seq<ContainerView>,
) -> Seq<TargetView> {
    match answer {
        Some(text) => container_targets(
            path_join(home, "Library/Containers"@),
            bundles_of(lines_of(text)),
            entries,
        ),
        None => Seq::empty(),
    }
}

/// A sandboxed app caches inside its container rather than in ~/Library/Caches,
/// so scanning that one directory never sees any of it. A sync provider's
/// container is reported but never swept: losing it costs a full re-download.
pub fn container_caches(
    home: &FsPath,
    answer: &Option<String>,
    entries: &Vec<Container>,
) -> (r: Vec<Target>)
    ensures
        views(r@) == swept_containers(home@, text_view(*answer), views(entries@)),
{
    // No answer from pluginkit means no way to tell a cache from a sync root,
    // and guessing wrong re-downloads an entire cloud account.
    match answer {
        Some(text) => {
            let providers = file_provider_bundles(text.as_str());
            container_caches_in(&home.join("Library/Containers"), &providers, entries)
        },
        None => {
            let none: Vec<Target> = Vec::new();
            assert(views(none@) =~= Seq::empty());
            none
        },
    }
}

// ---------------------------------------------------------------------------
// All of it
// ---------------------------------------------------------------------------

/// What was seen of the fixed places of a machine.
pub struct SystemFacts {
    /// Where the DerivedData directory really is, if it could be resolved.
    pub derived_data: Option<FsPath>,
    /// Those of the candidates, and of Homebrew's cache, that exist.
    pub present: Vec<FsPath>,
    pub tmpdir: Option<FsPath>,
    /// What `getconf DARWIN_USER_CACHE_DIR` printed.
    pub getconf: Option<String>,
    /// Whether the directory of Instruments' recordings is there.
    pub recordings: bool,
    /// The entries of the per-user temp directory.
    pub temp_entries: Vec<Part>,
    /// What the sweep of Application Support found.
    pub web_caches: Vec<Target>,
    /// What `pluginkit` printed, if it answered.
    pub file_providers: Option<String>,
    pub containers: Vec<Container>,
    /// What `brew --cache` printed, if it answered.
    pub brew: Option<String>,
    /// The directories in ~/Library/Caches.
    pub app_caches: Vec<Part>,
    /// The directories in ~/Library/Caches/Google.
    pub vendor_caches: Vec<Part>,
}

#[verifier::ext_equal]
pub struct SystemFactsView {
    pub derived_data: Option<PathView>,
    pub present: Seq<PathView>,
    pub tmpdir: Option<PathView>,
    pub getconf: Option<Seq<char>>,
    pub recordings: bool,
    pub temp_entries: Seq<PartView>,
    pub web_caches: Seq<TargetView>,
    pub file_providers: Option<Seq<char>>,
    pub containers: Seq<ContainerView>,
    pub brew: Option<Seq<char>>,
    pub app_caches: Seq<PartView>,
    pub vendor_caches: Seq<PartView>,
}

impl View for SystemFacts {
    type V = SystemFactsView;

    open spec fn view(&self) -> SystemFactsView {
        SystemFactsView {
            derived_data: path_view(self.derived_data),
            present: views(self.present@),
            tmpdir: path_view(self.tmpdir),
            getconf: text_view(self.getconf),
            recordings: self.recordings,
            temp_entries: views(self.temp_entries@),
            web_caches: views(self.web_caches@),
            file_providers: text_view(self.file_providers),
            containers: views(self.containers@),
            brew: text_view(self.brew),
            app_caches: views(self.app_caches@),
            vendor_caches: views(self.vendor_caches@),
        }
    }
}

/// The path that `brew --cache` printed.
pub fn brew_cache_path(output: &str) -> (r: FsPath)
    ensures
        r@ == path_of(trimmed(output@)),
{
    FsPath::new(trim(output).as_str())
}

/// Homebrew's cache, if it said where that is and something is there.
pub open spec fn brew_target(facts: SystemFactsView) -> Seq<TargetView> {
    match facts.brew {
        Some(text) => if lists(facts.present, path_of(trimmed(text))) {
            seq![(path_of(trimmed(text)), Category::HomebrewCache)]
        } else {
            Seq::empty()
        },
        None => Seq::empty(),
    }
}

/// The targets of the named rules and of the sweeps that leave those alone.
pub open spec fn claimed_targets(home: PathView, facts: SystemFactsView) -> Seq<TargetView> {
    let named = seen_on_disk(candidates(home, facts.derived_data), facts.present);
    let recorded = with_unclaimed(
        named,
        traces(
            darwin_dirs(facts.tmpdir, facts.getconf),
            facts.recordings,
            facts.temp_entries,
        ),
    );
    let web = with_unclaimed(recorded, facts.web_caches);
    with_unclaimed(web, swept_containers(home, facts.file_providers, facts.containers))
}

/// Every fixed target of the machine.
pub open spec fn all_system_targets(home: PathView, facts: SystemFactsView) -> Seq<TargetView> {
    with_unclaimed(
        claimed_targets(home, facts) + brew_target(facts),
        app_cache_targets(
            path_join(home, "Library/Caches"@),
            facts.app_caches,
            facts.vendor_caches,
        ),
    )
}

pub fn system_targets(home: &FsPath, facts: SystemFacts) -> (r: Vec<Target>)
    ensures
        views(r@) == all_system_targets(home@, facts@),
{
    let ghost seen = facts@;
    let mut out = keep_present(system_candidates(home, &facts.derived_data), &facts.present);
    let dirs = darwin_user_dirs(&facts.tmpdir, &facts.getconf);
    push_unclaimed(
        &mut out,
        instruments_traces(&dirs, facts.recordings, &facts.temp_entries),
    );
    push_unclaimed(&mut out, facts.web_caches);
    push_unclaimed(&mut out, container_caches(home, &facts.file_providers, &facts.containers));
    let ghost before_brew = views(out@);
    assert(before_brew == claimed_targets(home@, seen));
    if let Some(text) = &facts.brew {
        let brew_path = brew_cache_path(text.as_str());
        if has_path(&facts.present, &brew_path) {
            out.push((brew_path, Category::HomebrewCache));
        }
    }
    assert(views(out@) =~= before_brew + brew_target(seen));
    // One entry per app rather than the whole directory, so the report names
    // what is actually large instead of reporting one opaque total.
    push_unclaimed(
        &mut out,
        app_caches(&home.join("Library/Caches"), &facts.app_caches, &facts.vendor_caches),
    );
    out
}

/// Where `$PROFILE` is by default.
pub fn powershell_profile(home: &FsPath) -> (r: FsPath)
    ensures
        r@ == path_join(home@, ".config/powershell/Microsoft.PowerShell_profile.ps1"@),
{
    home.join(".config/powershell/Microsoft.PowerShell_profile.ps1")
}

/// Build caches that live outside any project directory.
pub open spec fn build_cache_candidates(home: PathView) -> Seq<TargetView> {
    seq![
        (path_join(home, ".build_caches/cargo"@), Category::RustTarget),
        (path_of("/tmp/cargo-target"@), Category::RustTarget),
    ]
}

/// Build caches that may live outside any project directory.
pub fn build_cache_dirs(home: &FsPath) -> (r: Vec<Target>)
    ensures
        views(r@) == build_cache_candidates(home@),
{
    // Check both the persistent build cache location and the legacy /tmp path.
    let r: Vec<Target> = vec![
        (home.join(".build_caches/cargo"), Category::RustTarget),
        (FsPath::new("/tmp/cargo-target"), Category::RustTarget),
    ];
    assert(views(r@) =~= build_cache_candidates(home@));
    r
}

/// Build caches that live outside any project directory; `present` are those of
/// them that exist.
pub fn build_cache_targets(home: &FsPath, present: &Vec<FsPath>) -> (r: Vec<Target>)
    ensures
        views(r@) == seen_on_disk(build_cache_candidates(home@), views(present@)),
{
    keep_present(build_cache_dirs(home), present)
}

/// Files the OS reserves that cannot be deleted directly, reported for
/// information with the command that actually reclaims them. There are none.
pub fn reserved_system_files() -> (r: Vec<(FsPath, &'static str)>)
    ensures
        r@.len() == 0,
{
    Vec::new()
}

// ---------------------------------------------------------------------------
// Laws
// ---------------------------------------------------------------------------

/// A sparse file counts what it occupies, not the hole in it, and slack in the
/// last block never lifts a file above its length.
pub proof fn a_hole_is_not_counted(meta: Metadata)
    ensures
        meta.blocks * 512 < meta.len ==> allocated(meta) == meta.blocks * 512,
        meta.blocks * 512 >= meta.len ==> allocated(meta) == meta.len,
{
}

/// Clearing a read-only flag gives the owner the write bit and changes nothing
/// for anyone else.
pub proof fn only_the_owner_bit_is_added(mode: u32)
    ensures
        writable_mode(mode) matches Some(new) ==> new & 0o200 != 0 && new & !0o200 == mode & !0o200,
        writable_mode(mode) is None ==> mode & 0o200 != 0,
{
    assert((mode | 0o200) & 0o200 != 0) by (bit_vector);
    assert((mode | 0o200) & !0o200 == mode & !0o200) by (bit_vector);
}

/// Nothing that a package manager, an editor or a manager of runtime versions
/// installed is walked, and nothing in the mounts of cloud accounts or in group
/// containers.
pub proof fn installed_software_and_mounts_are_skipped(home: PathView, path: PathView)
    requires
        under_any(path, package_prefixes(home)) || under_any(path, software_roots(home))
            || under_any(path, version_manager_roots(home)) || is_inside(path, path_join(home, "Library/CloudStorage"@)) || is_inside(
            path,
            path_join(home, "Library/Mobile Documents"@),
        ) || is_inside(path, path_join(home, "Library/Group Containers"@)),
    ensures
        under_any(path, default_skips(home)),
{
    let fixed = fixed_skips(home);
    let prefixes = package_prefixes(home);
    let roots = software_roots(home);
    let all = default_skips(home);
    if under_any(path, prefixes) {
        let i = choose|i: int| 0 <= i < prefixes.len() && is_inside(path, #[trigger] prefixes[i]);
        assert(all[fixed.len() + i] == prefixes[i]);
    } else if under_any(path, roots) {
        let i = choose|i: int| 0 <= i < roots.len() && is_inside(path, #[trigger] roots[i]);
        assert(all[fixed.len() + prefixes.len() + i] == roots[i]);
    } else if under_any(path, version_manager_roots(home)) {
        let runtimes = version_manager_roots(home);
        let i = choose|i: int| 0 <= i < runtimes.len() && is_inside(path, #[trigger] runtimes[i]);
        assert(all[fixed.len() + prefixes.len() + roots.len() + i] == runtimes[i]);
    } else {
        assert(all[7] == fixed[7] && all[8] == fixed[8] && all[9] == fixed[9]);
    }
}

/// A sync provider's cache is reported, and never under a category that may be
/// swept.
pub proof fn a_sync_providers_cache_is_reported_but_not_swept(
    containers: PathView,
    providers: Seq<Seq<char>>,
    entries: Seq<ContainerView>,
    name: PartView,
)
    requires
        belongs_to_provider(part_text(name), providers),
    ensures
        (exists|i: int|
            0 <= i < entries.len() && (#[trigger] entries[i]).has_cache && entries[i].name == name)
            ==> claims(
            container_targets(containers, providers, entries),
            container_cache_dir(containers, name),
        ),
        forall|i: int|
            0 <= i < container_targets(containers, providers, entries).len() && same_path(
                (#[trigger] container_targets(containers, providers, entries)[i]).0,
                container_cache_dir(containers, name),
            ) ==> !container_targets(containers, providers, entries)[i].1.is_regenerable(),
    decreases entries.len(),
{
    let all = container_targets(containers, providers, entries);
    let dir = container_cache_dir(containers, name);
    if entries.len() > 0 {
        let front = container_targets(containers, providers, entries.drop_last());
        let e = entries.last();
        a_sync_providers_cache_is_reported_but_not_swept(
            containers,
            providers,
            entries.drop_last(),
            name,
        );
        lemma_cache_dir_of_name(containers, e.name, name);
        if exists|i: int|
            0 <= i < entries.len() && (#[trigger] entries[i]).has_cache && entries[i].name
                == name {
            let i = choose|i: int|
                0 <= i < entries.len() && (#[trigger] entries[i]).has_cache && entries[i].name
                    == name;
            if i < entries.len() - 1 {
                assert(entries.drop_last()[i] == entries[i]);
                let k = choose|k: int|
                    0 <= k < front.len() && same_path((#[trigger] front[k]).0, dir);
                assert(same_path(all[k].0, dir));
            } else {
                assert(same_path(all[front.len() as int].0, dir));
            }
        }
        assert forall|i: int| 0 <= i < all.len() && same_path((#[trigger] all[i]).0, dir) implies
            !all[i].1.is_regenerable() by {
            if i < front.len() {
                assert(all[i] == front[i]);
            }
        }
    }
}

proof fn lemma_cache_dir_of_name(containers: PathView, a: PartView, b: PartView)
    ensures
        same_path(container_cache_dir(containers, a), container_cache_dir(containers, b)) ==> a
            == b,
{
    reveal_strlit("Data/Library/Caches");
    let n = containers.parts().len() as int;
    let x = containers.child(a);
    let y = containers.child(b);
    a_joined_path_is_written_behind(x, "Data/Library/Caches"@);
    a_joined_path_is_written_behind(y, "Data/Library/Caches"@);
    assert(x.parts()[n] == a);
    assert(y.parts()[n] == b);
    assert(container_cache_dir(containers, a).parts()[n] == a);
    assert(container_cache_dir(containers, b).parts()[n] == b);
}

/// A place named by a rule of its own keeps the category of that rule: the
/// sweeps that follow neither change it nor list it again under another.
pub proof fn a_named_place_keeps_its_category(home: PathView, facts: SystemFactsView)
    ensures
        seen_on_disk(candidates(home, facts.derived_data), facts.present).is_prefix_of(
            all_system_targets(home, facts),
        ),
{
    let named = seen_on_disk(candidates(home, facts.derived_data), facts.present);
    let found = traces(
        darwin_dirs(facts.tmpdir, facts.getconf),
        facts.recordings,
        facts.temp_entries,
    );
    let recorded = with_unclaimed(named, found);
    let web = with_unclaimed(recorded, facts.web_caches);
    let swept = swept_containers(home, facts.file_providers, facts.containers);
    let claimed = with_unclaimed(web, swept);
    let brewed = claimed + brew_target(facts);
    let apps = app_cache_targets(
        path_join(home, "Library/Caches"@),
        facts.app_caches,
        facts.vendor_caches,
    );
    let all = with_unclaimed(brewed, apps);
    a_claim_stands(named, found);
    a_claim_stands(recorded, facts.web_caches);
    a_claim_stands(web, swept);
    a_claim_stands(brewed, apps);
    assert forall|i: int| 0 <= i < named.len() implies named[i] == all[i] by {
        assert(recorded.subrange(0, named.len() as int)[i] == named[i]);
        assert(web.subrange(0, recorded.len() as int)[i] == recorded[i]);
        assert(claimed.subrange(0, web.len() as int)[i] == web[i]);
        assert(brewed[i] == claimed[i]);
        assert(all.subrange(0, brewed.len() as int)[i] == brewed[i]);
    }
    assert(all.subrange(0, named.len() as int) =~= named);
}

/// Without an answer on who the sync providers are, no container is swept.
pub proof fn no_answer_sweeps_no_container(
    home: PathView,
    entries: Seq<ContainerView>,
)
    ensures
        swept_containers(home, None, entries).len() == 0,
{
}

/// The entries of ~/Library/Caches that are held back are not regenerable.
pub proof fn held_back_caches_are_never_safe(name: Seq<char>)
    ensures
        held_back(name) matches Some(cat) ==> !cat.is_regenerable(),
{
}

/// The folder that Google's apps share is never taken as a whole, and Chrome's
/// cache in it never under a category that may be swept.
pub proof fn chromes_cache_is_kept(
    caches: PathView,
    names: Seq<PartView>,
    vendor: Seq<PartView>,
    folder: PartView,
    chrome: PartView,
    i: int,
)
    requires
        is_vendor_folder(folder),
        is_chrome(part_text(chrome)),
        0 <= i < app_cache_targets(caches, names, vendor).len(),
    ensures
        !same_path(app_cache_targets(caches, names, vendor)[i].0, caches.child(folder)),
        same_path(
            app_cache_targets(caches, names, vendor)[i].0,
            caches.child(folder).child(chrome),
        ) ==> !app_cache_targets(caches, names, vendor)[i].1.is_regenerable(),
    decreases names.len(),
{
    let front = app_cache_targets(caches, names.drop_last(), vendor);
    let all = app_cache_targets(caches, names, vendor);
    let name = names.last();
    if i < front.len() {
        chromes_cache_is_kept(caches, names.drop_last(), vendor, folder, chrome, i);
        assert(all[i] == front[i]);
    } else {
        let more = app_targets(caches, name, vendor);
        assert(all[i] == more[i - front.len()]);
        let n = caches.parts().len() as int;
        let taken = all[i].0.parts();
        let whole = caches.child(folder).parts();
        let kept = caches.child(folder).child(chrome).parts();
        assert(whole.len() == n + 1 && whole[n] == folder);
        assert(kept.len() == n + 2 && kept[n + 1] == chrome);
        if is_vendor_folder(name) {
            assert(taken.len() == n + 2);
            assert(taken[n + 1] == vendor[i - front.len()]);
        } else {
            assert(taken.len() == n + 1 && taken[n] == name);
        }
    }
}

/// The ends of the places that may be swept.
proof fn lemma_regenerable_tails(home: PathView)
    ensures
        tail_char(path_join(home, "Library/Developer/XCTestDevices"@).parts(), 0) == 's',
        tail_char(path_join(home, "Library/Developer/XCTestDevices"@).parts(), 1) == 'e',
        tail_char(path_join(home, "Library/Developer/XCTestDevices"@).parts(), 2) == 'c',
        tail_char(path_join(home, "Library/Developer/XCTestDevices"@).parts(), 3) == 'i',
        tail_char(path_join(home, "Library/Developer/XCTestDevices"@).parts(), 4) == 'v',
        tail_char(path_join(home, "Library/Developer/XCTestDevices"@).parts(), 5) == 'e',
        tail_char(path_join(home, "Library/Developer/XCTestDevices"@).parts(), 6) == 'D',
        tail_char(path_join(home, "Library/Developer/XCTestDevices"@).parts(), 7) == 't',
        tail_char(path_join(home, "Library/Developer/Xcode/iOS DeviceSupport"@).parts(), 0) == 't',
        tail_char(path_join(home, "Library/Developer/Xcode/watchOS DeviceSupport"@).parts(), 0) == 't',
        tail_char(path_join(home, "Library/Developer/Xcode/tvOS DeviceSupport"@).parts(), 0) == 't',
        tail_char(path_join(home, "Library/Developer/Xcode/DocumentationCache"@).parts(), 0) == 'e',
        tail_char(path_join(home, "Library/Developer/XcodeBuildMCP/workspaces"@).parts(), 0) == 's',
        tail_char(path_join(home, "Library/Developer/XcodeBuildMCP/workspaces"@).parts(), 1) == 'e',
        tail_char(path_join(home, "Library/Developer/XcodeBuildMCP/workspaces"@).parts(), 2) == 'c',
        tail_char(path_join(home, "Library/Developer/XcodeBuildMCP/workspaces"@).parts(), 3) == 'a',
        tail_char(path_join(home, ".npm/_cacache"@).parts(), 0) == 'e',
        tail_char(path_join(home, ".cache/uv"@).parts(), 0) == 'v',
        tail_char(path_join(home, "Library/Caches/uv"@).parts(), 0) == 'v',
        tail_char(path_join(home, ".cache/pip"@).parts(), 0) == 'p',
        tail_char(path_join(home, ".cache/pip"@).parts(), 1) == 'i',
        tail_char(path_join(home, ".cache/yarn"@).parts(), 0) == 'n',
        tail_char(path_join(home, "Library/Caches/Yarn"@).parts(), 0) == 'n',
        tail_char(path_join(home, ".local/share/pnpm/store"@).parts(), 0) == 'e',
        tail_char(path_join(home, "Library/pnpm/store"@).parts(), 0) == 'e',
        tail_char(path_join(home, ".bun/install/cache"@).parts(), 0) == 'e',
        tail_char(path_join(home, ".nuget/packages"@).parts(), 0) == 's',
        tail_char(path_join(home, ".nuget/packages"@).parts(), 1) == 'e',
        tail_char(path_join(home, ".nuget/packages"@).parts(), 2) == 'g',
        tail_char(path_join(home, ".nuget/packages"@).parts(), 3) == 'a',
        tail_char(path_join(home, ".nuget/packages"@).parts(), 4) == 'k',
        tail_char(path_join(home, ".cargo/registry"@).parts(), 0) == 'y',
        tail_char(path_join(home, ".cargo/git"@).parts(), 0) == 't',
        tail_char(path_join(home, ".gradle/caches"@).parts(), 0) == 's',
        tail_char(path_join(home, ".gradle/caches"@).parts(), 1) == 'e',
        tail_char(path_join(home, ".gradle/caches"@).parts(), 2) == 'h',
        tail_char(path_join(home, ".gradle/caches"@).parts(), 3) == 'c',
        tail_char(path_join(home, ".gradle/caches"@).parts(), 4) == 'a',
        tail_char(path_join(home, ".gradle/caches"@).parts(), 5) == 'c',
        tail_char(path_join(home, ".m2/repository"@).parts(), 0) == 'y',
        tail_char(path_join(home, "go/pkg/mod"@).parts(), 0) == 'd',
        tail_char(path_join(home, "go/pkg/mod"@).parts(), 1) == 'o',
{
    reveal_strlit("Library/Developer/XCTestDevices");
    lemma_joined_tail(home, "Library/Developer/XCTestDevices"@, 0);
    lemma_joined_tail(home, "Library/Developer/XCTestDevices"@, 1);
    lemma_joined_tail(home, "Library/Developer/XCTestDevices"@, 2);
    lemma_joined_tail(home, "Library/Developer/XCTestDevices"@, 3);
    lemma_joined_tail(home, "Library/Developer/XCTestDevices"@, 4);
    lemma_joined_tail(home, "Library/Developer/XCTestDevices"@, 5);
    lemma_joined_tail(home, "Library/Developer/XCTestDevices"@, 6);
    lemma_joined_tail(home, "Library/Developer/XCTestDevices"@, 7);
    reveal_strlit("Library/Developer/Xcode/iOS DeviceSupport");
    lemma_joined_tail(home, "Library/Developer/Xcode/iOS DeviceSupport"@, 0);
    reveal_strlit("Library/Developer/Xcode/watchOS DeviceSupport");
    lemma_joined_tail(home, "Library/Developer/Xcode/watchOS DeviceSupport"@, 0);
    reveal_strlit("Library/Developer/Xcode/tvOS DeviceSupport");
    lemma_joined_tail(home, "Library/Developer/Xcode/tvOS DeviceSupport"@, 0);
    reveal_strlit("Library/Developer/Xcode/DocumentationCache");
    lemma_joined_tail(home, "Library/Developer/Xcode/DocumentationCache"@, 0);
    reveal_strlit("Library/Developer/XcodeBuildMCP/workspaces");
    lemma_joined_tail(home, "Library/Developer/XcodeBuildMCP/workspaces"@, 0);
    lemma_joined_tail(home, "Library/Developer/XcodeBuildMCP/workspaces"@, 1);
    lemma_joined_tail(home, "Library/Developer/XcodeBuildMCP/workspaces"@, 2);
    lemma_joined_tail(home, "Library/Developer/XcodeBuildMCP/workspaces"@, 3);
    reveal_strlit(".npm/_cacache");
    lemma_joined_tail(home, ".npm/_cacache"@, 0);
    reveal_strlit(".cache/uv");
    lemma_joined_tail(home, ".cache/uv"@, 0);
    reveal_strlit("Library/Caches/uv");
    lemma_joined_tail(home, "Library/Caches/uv"@, 0);
    reveal_strlit(".cache/pip");
    lemma_joined_tail(home, ".cache/pip"@, 0);
    lemma_joined_tail(home, ".cache/pip"@, 1);
    reveal_strlit(".cache/yarn");
    lemma_joined_tail(home, ".cache/yarn"@, 0);
    reveal_strlit("Library/Caches/Yarn");
    lemma_joined_tail(home, "Library/Caches/Yarn"@, 0);
    reveal_strlit(".local/share/pnpm/store");
    lemma_joined_tail(home, ".local/share/pnpm/store"@, 0);
    reveal_strlit("Library/pnpm/store");
    lemma_joined_tail(home, "Library/pnpm/store"@, 0);
    reveal_strlit(".bun/install/cache");
    lemma_joined_tail(home, ".bun/install/cache"@, 0);
    reveal_strlit(".nuget/packages");
    lemma_joined_tail(home, ".nuget/packages"@, 0);
    lemma_joined_tail(home, ".nuget/packages"@, 1);
    lemma_joined_tail(home, ".nuget/packages"@, 2);
    lemma_joined_tail(home, ".nuget/packages"@, 3);
    lemma_joined_tail(home, ".nuget/packages"@, 4);
    reveal_strlit(".cargo/registry");
    lemma_joined_tail(home, ".cargo/registry"@, 0);
    reveal_strlit(".cargo/git");
    lemma_joined_tail(home, ".cargo/git"@, 0);
    reveal_strlit(".gradle/caches");
    lemma_joined_tail(home, ".gradle/caches"@, 0);
    lemma_joined_tail(home, ".gradle/caches"@, 1);
    lemma_joined_tail(home, ".gradle/caches"@, 2);
    lemma_joined_tail(home, ".gradle/caches"@, 3);
    lemma_joined_tail(home, ".gradle/caches"@, 4);
    lemma_joined_tail(home, ".gradle/caches"@, 5);
    reveal_strlit(".m2/repository");
    lemma_joined_tail(home, ".m2/repository"@, 0);
    reveal_strlit("go/pkg/mod");
    lemma_joined_tail(home, "go/pkg/mod"@, 0);
    lemma_joined_tail(home, "go/pkg/mod"@, 1);
}

/// The ends of the places that hold real state.
proof fn lemma_state_tails(home: PathView)
    ensures
        tail_char(path_join(home, "Library/Developer/CoreSimulator/Devices"@).parts(), 0) == 's',
        tail_char(path_join(home, "Library/Developer/CoreSimulator/Devices"@).parts(), 1) == 'e',
        tail_char(path_join(home, "Library/Developer/CoreSimulator/Devices"@).parts(), 2) == 'c',
        tail_char(path_join(home, "Library/Developer/CoreSimulator/Devices"@).parts(), 3) == 'i',
        tail_char(path_join(home, "Library/Developer/CoreSimulator/Devices"@).parts(), 4) == 'v',
        tail_char(path_join(home, "Library/Developer/CoreSimulator/Devices"@).parts(), 5) == 'e',
        tail_char(path_join(home, "Library/Developer/CoreSimulator/Devices"@).parts(), 6) == 'D',
        tail_char(path_join(home, "Library/Developer/CoreSimulator/Devices"@).parts(), 7) == '/',
        tail_char(path_of("/Library/Developer/CoreSimulator/Caches"@).parts(), 0) == 's',
        tail_char(path_of("/Library/Developer/CoreSimulator/Caches"@).parts(), 1) == 'e',
        tail_char(path_of("/Library/Developer/CoreSimulator/Caches"@).parts(), 2) == 'h',
        tail_char(path_of("/Library/Developer/CoreSimulator/Caches"@).parts(), 3) == 'c',
        tail_char(path_of("/Library/Developer/CoreSimulator/Caches"@).parts(), 4) == 'a',
        tail_char(path_of("/Library/Developer/CoreSimulator/Caches"@).parts(), 5) == 'C',
        tail_char(path_of("/Library/Developer/CoreSimulator/Images"@).parts(), 0) == 's',
        tail_char(path_of("/Library/Developer/CoreSimulator/Images"@).parts(), 1) == 'e',
        tail_char(path_of("/Library/Developer/CoreSimulator/Images"@).parts(), 2) == 'g',
        tail_char(path_of("/Library/Developer/CoreSimulator/Images"@).parts(), 3) == 'a',
        tail_char(path_of("/Library/Developer/CoreSimulator/Images"@).parts(), 4) == 'm',
        tail_char(path_join(home, "Library/Application Support/MobileSync/Backup"@).parts(), 0) == 'p',
        tail_char(path_join(home, "Library/Application Support/MobileSync/Backup"@).parts(), 1) == 'u',
        tail_char(path_join(home, "Library/Application Support/FileProvider"@).parts(), 0) == 'r',
        tail_char(path_join(home, "Library/Application Support/Google/DriveFS"@).parts(), 0) == 'S',
        tail_char(path_join(home, "Library/Containers/com.apple.photoanalysisd/Data/Library/Caches"@).parts(), 0) == 's',
        tail_char(path_join(home, "Library/Containers/com.apple.photoanalysisd/Data/Library/Caches"@).parts(), 1) == 'e',
        tail_char(path_join(home, "Library/Containers/com.apple.photoanalysisd/Data/Library/Caches"@).parts(), 2) == 'h',
        tail_char(path_join(home, "Library/Containers/com.apple.photoanalysisd/Data/Library/Caches"@).parts(), 3) == 'c',
        tail_char(path_join(home, "Library/Containers/com.apple.photoanalysisd/Data/Library/Caches"@).parts(), 4) == 'a',
        tail_char(path_join(home, "Library/Containers/com.apple.photoanalysisd/Data/Library/Caches"@).parts(), 5) == 'C',
        tail_char(path_join(home, "Library/Containers/com.apple.mediaanalysisd/Data/Library/Caches"@).parts(), 0) == 's',
        tail_char(path_join(home, "Library/Containers/com.apple.mediaanalysisd/Data/Library/Caches"@).parts(), 1) == 'e',
        tail_char(path_join(home, "Library/Containers/com.apple.mediaanalysisd/Data/Library/Caches"@).parts(), 2) == 'h',
        tail_char(path_join(home, "Library/Containers/com.apple.mediaanalysisd/Data/Library/Caches"@).parts(), 3) == 'c',
        tail_char(path_join(home, "Library/Containers/com.apple.mediaanalysisd/Data/Library/Caches"@).parts(), 4) == 'a',
        tail_char(path_join(home, "Library/Containers/com.apple.mediaanalysisd/Data/Library/Caches"@).parts(), 5) == 'C',
        tail_char(path_join(home, "Library/Containers/com.apple.texttospeech.SiriAUSP/Data/Library/Caches"@).parts(), 0) == 's',
        tail_char(path_join(home, "Library/Containers/com.apple.texttospeech.SiriAUSP/Data/Library/Caches"@).parts(), 1) == 'e',
        tail_char(path_join(home, "Library/Containers/com.apple.texttospeech.SiriAUSP/Data/Library/Caches"@).parts(), 2) == 'h',
        tail_char(path_join(home, "Library/Containers/com.apple.texttospeech.SiriAUSP/Data/Library/Caches"@).parts(), 3) == 'c',
        tail_char(path_join(home, "Library/Containers/com.apple.texttospeech.SiriAUSP/Data/Library/Caches"@).parts(), 4) == 'a',
        tail_char(path_join(home, "Library/Containers/com.apple.texttospeech.SiriAUSP/Data/Library/Caches"@).parts(), 5) == 'C',
        tail_char(path_join(home, "Library/Containers/com.docker.docker/Data"@).parts(), 0) == 'a',
        tail_char(path_join(home, "Library/Android/sdk"@).parts(), 0) == 'k',
        tail_char(path_join(home, ".android/avd"@).parts(), 0) == 'd',
        tail_char(path_join(home, ".android/avd"@).parts(), 1) == 'v',
{
    reveal_strlit("Library/Developer/CoreSimulator/Devices");
    lemma_joined_tail(home, "Library/Developer/CoreSimulator/Devices"@, 0);
    lemma_joined_tail(home, "Library/Developer/CoreSimulator/Devices"@, 1);
    lemma_joined_tail(home, "Library/Developer/CoreSimulator/Devices"@, 2);
    lemma_joined_tail(home, "Library/Developer/CoreSimulator/Devices"@, 3);
    lemma_joined_tail(home, "Library/Developer/CoreSimulator/Devices"@, 4);
    lemma_joined_tail(home, "Library/Developer/CoreSimulator/Devices"@, 5);
    lemma_joined_tail(home, "Library/Developer/CoreSimulator/Devices"@, 6);
    lemma_joined_tail(home, "Library/Developer/CoreSimulator/Devices"@, 7);
    reveal_strlit("/Library/Developer/CoreSimulator/Caches");
    lemma_spelt_tail("/Library/Developer/CoreSimulator/Caches"@, 0);
    lemma_spelt_tail("/Library/Developer/CoreSimulator/Caches"@, 1);
    lemma_spelt_tail("/Library/Developer/CoreSimulator/Caches"@, 2);
    lemma_spelt_tail("/Library/Developer/CoreSimulator/Caches"@, 3);
    lemma_spelt_tail("/Library/Developer/CoreSimulator/Caches"@, 4);
    lemma_spelt_tail("/Library/Developer/CoreSimulator/Caches"@, 5);
    reveal_strlit("/Library/Developer/CoreSimulator/Images");
    lemma_spelt_tail("/Library/Developer/CoreSimulator/Images"@, 0);
    lemma_spelt_tail("/Library/Developer/CoreSimulator/Images"@, 1);
    lemma_spelt_tail("/Library/Developer/CoreSimulator/Images"@, 2);
    lemma_spelt_tail("/Library/Developer/CoreSimulator/Images"@, 3);
    lemma_spelt_tail("/Library/Developer/CoreSimulator/Images"@, 4);
    reveal_strlit("Library/Application Support/MobileSync/Backup");
    lemma_joined_tail(home, "Library/Application Support/MobileSync/Backup"@, 0);
    lemma_joined_tail(home, "Library/Application Support/MobileSync/Backup"@, 1);
    reveal_strlit("Library/Application Support/FileProvider");
    lemma_joined_tail(home, "Library/Application Support/FileProvider"@, 0);
    reveal_strlit("Library/Application Support/Google/DriveFS");
    lemma_joined_tail(home, "Library/Application Support/Google/DriveFS"@, 0);
    reveal_strlit("Library/Containers/com.apple.photoanalysisd/Data/Library/Caches");
    lemma_joined_tail(home, "Library/Containers/com.apple.photoanalysisd/Data/Library/Caches"@, 0);
    lemma_joined_tail(home, "Library/Containers/com.apple.photoanalysisd/Data/Library/Caches"@, 1);
    lemma_joined_tail(home, "Library/Containers/com.apple.photoanalysisd/Data/Library/Caches"@, 2);
    lemma_joined_tail(home, "Library/Containers/com.apple.photoanalysisd/Data/Library/Caches"@, 3);
    lemma_joined_tail(home, "Library/Containers/com.apple.photoanalysisd/Data/Library/Caches"@, 4);
    lemma_joined_tail(home, "Library/Containers/com.apple.photoanalysisd/Data/Library/Caches"@, 5);
    reveal_strlit("Library/Containers/com.apple.mediaanalysisd/Data/Library/Caches");
    lemma_joined_tail(home, "Library/Containers/com.apple.mediaanalysisd/Data/Library/Caches"@, 0);
    lemma_joined_tail(home, "Library/Containers/com.apple.mediaanalysisd/Data/Library/Caches"@, 1);
    lemma_joined_tail(home, "Library/Containers/com.apple.mediaanalysisd/Data/Library/Caches"@, 2);
    lemma_joined_tail(home, "Library/Containers/com.apple.mediaanalysisd/Data/Library/Caches"@, 3);
    lemma_joined_tail(home, "Library/Containers/com.apple.mediaanalysisd/Data/Library/Caches"@, 4);
    lemma_joined_tail(home, "Library/Containers/com.apple.mediaanalysisd/Data/Library/Caches"@, 5);
    reveal_strlit("Library/Containers/com.apple.texttospeech.SiriAUSP/Data/Library/Caches");
    lemma_joined_tail(home, "Library/Containers/com.apple.texttospeech.SiriAUSP/Data/Library/Caches"@, 0);
    lemma_joined_tail(home, "Library/Containers/com.apple.texttospeech.SiriAUSP/Data/Library/Caches"@, 1);
    lemma_joined_tail(home, "Library/Containers/com.apple.texttospeech.SiriAUSP/Data/Library/Caches"@, 2);
    lemma_joined_tail(home, "Library/Containers/com.apple.texttospeech.SiriAUSP/Data/Library/Caches"@, 3);
    lemma_joined_tail(home, "Library/Containers/com.apple.texttospeech.SiriAUSP/Data/Library/Caches"@, 4);
    lemma_joined_tail(home, "Library/Containers/com.apple.texttospeech.SiriAUSP/Data/Library/Caches"@, 5);
    reveal_strlit("Library/Containers/com.docker.docker/Data");
    lemma_joined_tail(home, "Library/Containers/com.docker.docker/Data"@, 0);
    reveal_strlit("Library/Android/sdk");
    lemma_joined_tail(home, "Library/Android/sdk"@, 0);
    reveal_strlit(".android/avd");
    lemma_joined_tail(home, ".android/avd"@, 0);
    lemma_joined_tail(home, ".android/avd"@, 1);
}

/// The place is one of those that hold real state.
pub open spec fn holds_state(home: PathView, p: PathView) -> bool {
    ||| p == path_join(home, "Library/Developer/CoreSimulator/Devices"@)
    ||| p == path_of("/Library/Developer/CoreSimulator/Caches"@)
    ||| p == path_of("/Library/Developer/CoreSimulator/Images"@)
    ||| p == path_join(home, "Library/Application Support/MobileSync/Backup"@)
    ||| p == path_join(home, "Library/Application Support/FileProvider"@)
    ||| p == path_join(home, "Library/Application Support/Google/DriveFS"@)
    ||| p == path_join(home, "Library/Containers/com.apple.photoanalysisd/Data/Library/Caches"@)
    ||| p == path_join(home, "Library/Containers/com.apple.mediaanalysisd/Data/Library/Caches"@)
    ||| p == path_join(home, "Library/Containers/com.apple.texttospeech.SiriAUSP/Data/Library/Caches"@)
    ||| p == path_join(home, "Library/Containers/com.docker.docker/Data"@)
    ||| p == path_join(home, "Library/Android/sdk"@)
    ||| p == path_join(home, ".android/avd"@)
}

/// The path ends as one of the places does that may be swept.
spec fn ends_as_swept(p: Parts) -> bool {
    ||| (tail_char(p, 0) == 's' && tail_char(p, 1) == 'e' && tail_char(p, 2) == 'c' && tail_char(p, 3) == 'i' && tail_char(p, 4) == 'v' && tail_char(p, 5) == 'e' && tail_char(p, 6) == 'D' && tail_char(p, 7) == 't')
    ||| (tail_char(p, 0) == 't')
    ||| (tail_char(p, 0) == 'e')
    ||| (tail_char(p, 0) == 's' && tail_char(p, 1) == 'e' && tail_char(p, 2) == 'c' && tail_char(p, 3) == 'a')
    ||| (tail_char(p, 0) == 'v')
    ||| (tail_char(p, 0) == 'p' && tail_char(p, 1) == 'i')
    ||| (tail_char(p, 0) == 'n')
    ||| (tail_char(p, 0) == 's' && tail_char(p, 1) == 'e' && tail_char(p, 2) == 'g' && tail_char(p, 3) == 'a' && tail_char(p, 4) == 'k')
    ||| (tail_char(p, 0) == 'y')
    ||| (tail_char(p, 0) == 's' && tail_char(p, 1) == 'e' && tail_char(p, 2) == 'h' && tail_char(p, 3) == 'c' && tail_char(p, 4) == 'a' && tail_char(p, 5) == 'c')
    ||| (tail_char(p, 0) == 'd' && tail_char(p, 1) == 'o')
}

proof fn lemma_swept_ends(home: PathView, resolved: Option<PathView>, k: int)
    requires
        0 <= k < candidates(home, resolved).len(),
        candidates(home, resolved)[k].1.is_regenerable(),
    ensures
        ends_as_swept(candidates(home, resolved)[k].0.parts()),
{
    lemma_regenerable_tails(home);
}

proof fn lemma_state_ends(home: PathView, p: PathView)
    requires
        holds_state(home, p),
    ensures
        !ends_as_swept(p.parts()),
{
    lemma_state_tails(home);
}

proof fn lemma_state_is_apart(home: PathView, resolved: Option<PathView>, p: PathView, k: int)
    requires
        holds_state(home, p),
        0 <= k < candidates(home, resolved).len(),
        candidates(home, resolved)[k].1.is_regenerable(),
    ensures
        !same_path(candidates(home, resolved)[k].0, p),
{
    lemma_swept_ends(home, resolved, k);
    lemma_state_ends(home, p);
}

proof fn lemma_named_place(home: PathView, facts: SystemFactsView, t: TargetView)
    requires
        candidates(home, facts.derived_data).contains(t),
        facts.present.contains(t.0),
    ensures
        all_system_targets(home, facts).contains(t),
        seen_on_disk(candidates(home, facts.derived_data), facts.present).contains(t),
{
    let named = seen_on_disk(candidates(home, facts.derived_data), facts.present);
    let all = all_system_targets(home, facts);
    let n = choose|n: int| 0 <= n < facts.present.len() && facts.present[n] == t.0;
    assert(facts.present[n].parts() == t.0.parts());
    what_was_seen_is_kept(candidates(home, facts.derived_data), facts.present, t);
    let k = choose|k: int| 0 <= k < named.len() && named[k] == t;
    a_named_place_keeps_its_category(home, facts);
    assert(all.subrange(0, named.len() as int)[k] == named[k]);
    assert(all[k] == t);
}

/// Every fixed place that exists is reported, under the category that it
/// belongs in.
pub proof fn fixed_places_are_reported(home: PathView, facts: SystemFactsView)
    ensures
        facts.derived_data matches Some(resolved) && facts.present.contains(resolved)
            ==> all_system_targets(home, facts).contains(
            (facts.derived_data->0, Category::XcodeDerivedData),
        ),
        facts.derived_data is None && facts.present.contains(
            path_join(home, "Library/Developer/Xcode/DerivedData"@),
        ) ==> all_system_targets(home, facts).contains(
            (path_join(home, "Library/Developer/Xcode/DerivedData"@), Category::XcodeDerivedData),
        ),
        facts.present.contains(path_join(home, "Library/Developer/XCTestDevices"@)) ==> all_system_targets(home, facts).contains(
            (path_join(home, "Library/Developer/XCTestDevices"@), Category::XcTestDevices),
        ),
        facts.present.contains(path_join(home, "Library/Developer/CoreSimulator/Devices"@)) ==> all_system_targets(home, facts).contains(
            (path_join(home, "Library/Developer/CoreSimulator/Devices"@), Category::IosSimulators),
        ),
        facts.present.contains(path_of("/Library/Developer/CoreSimulator/Caches"@)) ==> all_system_targets(home, facts).contains(
            (path_of("/Library/Developer/CoreSimulator/Caches"@), Category::SimulatorRuntimes),
        ),
        facts.present.contains(path_of("/Library/Developer/CoreSimulator/Images"@)) ==> all_system_targets(home, facts).contains(
            (path_of("/Library/Developer/CoreSimulator/Images"@), Category::SimulatorRuntimes),
        ),
        facts.present.contains(path_join(home, "Library/Developer/Xcode/iOS DeviceSupport"@)) ==> all_system_targets(home, facts).contains(
            (path_join(home, "Library/Developer/Xcode/iOS DeviceSupport"@), Category::XcodeDeviceSupport),
        ),
        facts.present.contains(path_join(home, "Library/Developer/Xcode/watchOS DeviceSupport"@)) ==> all_system_targets(home, facts).contains(
            (path_join(home, "Library/Developer/Xcode/watchOS DeviceSupport"@), Category::XcodeDeviceSupport),
        ),
        facts.present.contains(path_join(home, "Library/Developer/Xcode/tvOS DeviceSupport"@)) ==> all_system_targets(home, facts).contains(
            (path_join(home, "Library/Developer/Xcode/tvOS DeviceSupport"@), Category::XcodeDeviceSupport),
        ),
        facts.present.contains(path_join(home, "Library/Developer/Xcode/DocumentationCache"@)) ==> all_system_targets(home, facts).contains(
            (path_join(home, "Library/Developer/Xcode/DocumentationCache"@), Category::XcodeCaches),
        ),
        facts.present.contains(path_join(home, "Library/Developer/XcodeBuildMCP/workspaces"@)) ==> all_system_targets(home, facts).contains(
            (path_join(home, "Library/Developer/XcodeBuildMCP/workspaces"@), Category::XcodeCaches),
        ),
        facts.present.contains(path_join(home, "Library/Application Support/MobileSync/Backup"@)) ==> all_system_targets(home, facts).contains(
            (path_join(home, "Library/Application Support/MobileSync/Backup"@), Category::IphoneBackups),
        ),
        facts.present.contains(path_join(home, "Library/Application Support/FileProvider"@)) ==> all_system_targets(home, facts).contains(
            (path_join(home, "Library/Application Support/FileProvider"@), Category::CloudMirror),
        ),
        facts.present.contains(path_join(home, "Library/Application Support/Google/DriveFS"@)) ==> all_system_targets(home, facts).contains(
            (path_join(home, "Library/Application Support/Google/DriveFS"@), Category::CloudMirror),
        ),
        facts.present.contains(path_join(home, "Library/Containers/com.apple.photoanalysisd/Data/Library/Caches"@)) ==> all_system_targets(home, facts).contains(
            (path_join(home, "Library/Containers/com.apple.photoanalysisd/Data/Library/Caches"@), Category::ExpensiveCache),
        ),
        facts.present.contains(path_join(home, "Library/Containers/com.apple.mediaanalysisd/Data/Library/Caches"@)) ==> all_system_targets(home, facts).contains(
            (path_join(home, "Library/Containers/com.apple.mediaanalysisd/Data/Library/Caches"@), Category::ExpensiveCache),
        ),
        facts.present.contains(path_join(home, "Library/Containers/com.apple.texttospeech.SiriAUSP/Data/Library/Caches"@)) ==> all_system_targets(home, facts).contains(
            (path_join(home, "Library/Containers/com.apple.texttospeech.SiriAUSP/Data/Library/Caches"@), Category::ExpensiveCache),
        ),
        facts.present.contains(path_join(home, "Library/Containers/com.docker.docker/Data"@)) ==> all_system_targets(home, facts).contains(
            (path_join(home, "Library/Containers/com.docker.docker/Data"@), Category::DockerData),
        ),
        facts.present.contains(path_join(home, "Library/Android/sdk"@)) ==> all_system_targets(home, facts).contains(
            (path_join(home, "Library/Android/sdk"@), Category::AndroidSdk),
        ),
        facts.present.contains(path_join(home, ".android/avd"@)) ==> all_system_targets(home, facts).contains(
            (path_join(home, ".android/avd"@), Category::AndroidEmulator),
        ),
        facts.present.contains(path_join(home, ".npm/_cacache"@)) ==> all_system_targets(home, facts).contains(
            (path_join(home, ".npm/_cacache"@), Category::NpmCache),
        ),
        facts.present.contains(path_join(home, ".cache/uv"@)) ==> all_system_targets(home, facts).contains(
            (path_join(home, ".cache/uv"@), Category::UvCache),
        ),
        facts.present.contains(path_join(home, "Library/Caches/uv"@)) ==> all_system_targets(home, facts).contains(
            (path_join(home, "Library/Caches/uv"@), Category::UvCache),
        ),
        facts.present.contains(path_join(home, ".cache/pip"@)) ==> all_system_targets(home, facts).contains(
            (path_join(home, ".cache/pip"@), Category::PipCache),
        ),
        facts.present.contains(path_join(home, ".cache/yarn"@)) ==> all_system_targets(home, facts).contains(
            (path_join(home, ".cache/yarn"@), Category::YarnPnpmCache),
        ),
        facts.present.contains(path_join(home, "Library/Caches/Yarn"@)) ==> all_system_targets(home, facts).contains(
            (path_join(home, "Library/Caches/Yarn"@), Category::YarnPnpmCache),
        ),
        facts.present.contains(path_join(home, ".local/share/pnpm/store"@)) ==> all_system_targets(home, facts).contains(
            (path_join(home, ".local/share/pnpm/store"@), Category::YarnPnpmCache),
        ),
        facts.present.contains(path_join(home, "Library/pnpm/store"@)) ==> all_system_targets(home, facts).contains(
            (path_join(home, "Library/pnpm/store"@), Category::YarnPnpmCache),
        ),
        facts.present.contains(path_join(home, ".bun/install/cache"@)) ==> all_system_targets(home, facts).contains(
            (path_join(home, ".bun/install/cache"@), Category::YarnPnpmCache),
        ),
        facts.present.contains(path_join(home, ".nuget/packages"@)) ==> all_system_targets(home, facts).contains(
            (path_join(home, ".nuget/packages"@), Category::NugetCache),
        ),
        facts.present.contains(path_join(home, ".cargo/registry"@)) ==> all_system_targets(home, facts).contains(
            (path_join(home, ".cargo/registry"@), Category::CargoRegistry),
        ),
        facts.present.contains(path_join(home, ".cargo/git"@)) ==> all_system_targets(home, facts).contains(
            (path_join(home, ".cargo/git"@), Category::CargoRegistry),
        ),
        facts.present.contains(path_join(home, ".gradle/caches"@)) ==> all_system_targets(home, facts).contains(
            (path_join(home, ".gradle/caches"@), Category::GradleCache),
        ),
        facts.present.contains(path_join(home, ".m2/repository"@)) ==> all_system_targets(home, facts).contains(
            (path_join(home, ".m2/repository"@), Category::MavenCache),
        ),
        facts.present.contains(path_join(home, "go/pkg/mod"@)) ==> all_system_targets(home, facts).contains(
            (path_join(home, "go/pkg/mod"@), Category::GoModCache),
        ),
{
    let list = candidates(home, facts.derived_data);
    assert forall|k: int| 0 <= k < list.len() && facts.present.contains(
        (#[trigger] list[k]).0,
    ) implies all_system_targets(home, facts).contains(list[k]) by {
        assert(list.contains(list[k]));
        lemma_named_place(home, facts, list[k]);
    }
    assert(list[0].1 == Category::XcodeDerivedData);
    assert(list[1] == (path_join(home, "Library/Developer/XCTestDevices"@), Category::XcTestDevices));
    assert(list[2] == (path_join(home, "Library/Developer/CoreSimulator/Devices"@), Category::IosSimulators));
    assert(list[3] == (path_of("/Library/Developer/CoreSimulator/Caches"@), Category::SimulatorRuntimes));
    assert(list[4] == (path_of("/Library/Developer/CoreSimulator/Images"@), Category::SimulatorRuntimes));
    assert(list[5] == (path_join(home, "Library/Developer/Xcode/iOS DeviceSupport"@), Category::XcodeDeviceSupport));
    assert(list[6] == (path_join(home, "Library/Developer/Xcode/watchOS DeviceSupport"@), Category::XcodeDeviceSupport));
    assert(list[7] == (path_join(home, "Library/Developer/Xcode/tvOS DeviceSupport"@), Category::XcodeDeviceSupport));
    assert(list[8] == (path_join(home, "Library/Developer/Xcode/DocumentationCache"@), Category::XcodeCaches));
    assert(list[9] == (path_join(home, "Library/Developer/XcodeBuildMCP/workspaces"@), Category::XcodeCaches));
    assert(list[10] == (path_join(home, "Library/Application Support/MobileSync/Backup"@), Category::IphoneBackups));
    assert(list[11] == (path_join(home, "Library/Application Support/FileProvider"@), Category::CloudMirror));
    assert(list[12] == (path_join(home, "Library/Application Support/Google/DriveFS"@), Category::CloudMirror));
    assert(list[13] == (path_join(home, "Library/Containers/com.apple.photoanalysisd/Data/Library/Caches"@), Category::ExpensiveCache));
    assert(list[14] == (path_join(home, "Library/Containers/com.apple.mediaanalysisd/Data/Library/Caches"@), Category::ExpensiveCache));
    assert(list[15] == (path_join(home, "Library/Containers/com.apple.texttospeech.SiriAUSP/Data/Library/Caches"@), Category::ExpensiveCache));
    assert(list[16] == (path_join(home, "Library/Containers/com.docker.docker/Data"@), Category::DockerData));
    assert(list[17] == (path_join(home, "Library/Android/sdk"@), Category::AndroidSdk));
    assert(list[18] == (path_join(home, ".android/avd"@), Category::AndroidEmulator));
    assert(list[19] == (path_join(home, ".npm/_cacache"@), Category::NpmCache));
    assert(list[20] == (path_join(home, ".cache/uv"@), Category::UvCache));
    assert(list[21] == (path_join(home, "Library/Caches/uv"@), Category::UvCache));
    assert(list[22] == (path_join(home, ".cache/pip"@), Category::PipCache));
    assert(list[23] == (path_join(home, ".cache/yarn"@), Category::YarnPnpmCache));
    assert(list[24] == (path_join(home, "Library/Caches/Yarn"@), Category::YarnPnpmCache));
    assert(list[25] == (path_join(home, ".local/share/pnpm/store"@), Category::YarnPnpmCache));
    assert(list[26] == (path_join(home, "Library/pnpm/store"@), Category::YarnPnpmCache));
    assert(list[27] == (path_join(home, ".bun/install/cache"@), Category::YarnPnpmCache));
    assert(list[28] == (path_join(home, ".nuget/packages"@), Category::NugetCache));
    assert(list[29] == (path_join(home, ".cargo/registry"@), Category::CargoRegistry));
    assert(list[30] == (path_join(home, ".cargo/git"@), Category::CargoRegistry));
    assert(list[31] == (path_join(home, ".gradle/caches"@), Category::GradleCache));
    assert(list[32] == (path_join(home, ".m2/repository"@), Category::MavenCache));
    assert(list[33] == (path_join(home, "go/pkg/mod"@), Category::GoModCache));
}

/// No fixed place is reported but these, and whatever else is reported was found
/// by one of the sweeps or named by Homebrew.
pub proof fn nothing_else_is_a_fixed_place(
    home: PathView,
    facts: SystemFactsView,
    i: int,
)
    requires
        0 <= i < all_system_targets(home, facts).len(),
    ensures
        ({
            let t = all_system_targets(home, facts)[i];
            ||| facts.derived_data matches Some(resolved) && t == (resolved, Category::XcodeDerivedData)
            ||| facts.derived_data is None && t == (
                path_join(home, "Library/Developer/Xcode/DerivedData"@),
                Category::XcodeDerivedData,
            )
            ||| t == (path_join(home, "Library/Developer/XCTestDevices"@), Category::XcTestDevices)
            ||| t == (path_join(home, "Library/Developer/CoreSimulator/Devices"@), Category::IosSimulators)
            ||| t == (path_of("/Library/Developer/CoreSimulator/Caches"@), Category::SimulatorRuntimes)
            ||| t == (path_of("/Library/Developer/CoreSimulator/Images"@), Category::SimulatorRuntimes)
            ||| t == (path_join(home, "Library/Developer/Xcode/iOS DeviceSupport"@), Category::XcodeDeviceSupport)
            ||| t == (path_join(home, "Library/Developer/Xcode/watchOS DeviceSupport"@), Category::XcodeDeviceSupport)
            ||| t == (path_join(home, "Library/Developer/Xcode/tvOS DeviceSupport"@), Category::XcodeDeviceSupport)
            ||| t == (path_join(home, "Library/Developer/Xcode/DocumentationCache"@), Category::XcodeCaches)
            ||| t == (path_join(home, "Library/Developer/XcodeBuildMCP/workspaces"@), Category::XcodeCaches)
            ||| t == (path_join(home, "Library/Application Support/MobileSync/Backup"@), Category::IphoneBackups)
            ||| t == (path_join(home, "Library/Application Support/FileProvider"@), Category::CloudMirror)
            ||| t == (path_join(home, "Library/Application Support/Google/DriveFS"@), Category::CloudMirror)
            ||| t == (path_join(home, "Library/Containers/com.apple.photoanalysisd/Data/Library/Caches"@), Category::ExpensiveCache)
            ||| t == (path_join(home, "Library/Containers/com.apple.mediaanalysisd/Data/Library/Caches"@), Category::ExpensiveCache)
            ||| t == (path_join(home, "Library/Containers/com.apple.texttospeech.SiriAUSP/Data/Library/Caches"@), Category::ExpensiveCache)
            ||| t == (path_join(home, "Library/Containers/com.docker.docker/Data"@), Category::DockerData)
            ||| t == (path_join(home, "Library/Android/sdk"@), Category::AndroidSdk)
            ||| t == (path_join(home, ".android/avd"@), Category::AndroidEmulator)
            ||| t == (path_join(home, ".npm/_cacache"@), Category::NpmCache)
            ||| t == (path_join(home, ".cache/uv"@), Category::UvCache)
            ||| t == (path_join(home, "Library/Caches/uv"@), Category::UvCache)
            ||| t == (path_join(home, ".cache/pip"@), Category::PipCache)
            ||| t == (path_join(home, ".cache/yarn"@), Category::YarnPnpmCache)
            ||| t == (path_join(home, "Library/Caches/Yarn"@), Category::YarnPnpmCache)
            ||| t == (path_join(home, ".local/share/pnpm/store"@), Category::YarnPnpmCache)
            ||| t == (path_join(home, "Library/pnpm/store"@), Category::YarnPnpmCache)
            ||| t == (path_join(home, ".bun/install/cache"@), Category::YarnPnpmCache)
            ||| t == (path_join(home, ".nuget/packages"@), Category::NugetCache)
            ||| t == (path_join(home, ".cargo/registry"@), Category::CargoRegistry)
            ||| t == (path_join(home, ".cargo/git"@), Category::CargoRegistry)
            ||| t == (path_join(home, ".gradle/caches"@), Category::GradleCache)
            ||| t == (path_join(home, ".m2/repository"@), Category::MavenCache)
            ||| t == (path_join(home, "go/pkg/mod"@), Category::GoModCache)
            ||| traces(
                darwin_dirs(facts.tmpdir, facts.getconf),
                facts.recordings,
                facts.temp_entries,
            ).contains(t)
            ||| facts.web_caches.contains(t)
            ||| swept_containers(home, facts.file_providers, facts.containers).contains(t)
            ||| facts.brew matches Some(text) && t == (
                path_of(trimmed(text)),
                Category::HomebrewCache,
            )
            ||| app_cache_targets(
                path_join(home, "Library/Caches"@),
                facts.app_caches,
                facts.vendor_caches,
            ).contains(t)
        }),
{
    let t = all_system_targets(home, facts)[i];
    let list = candidates(home, facts.derived_data);
    let named = seen_on_disk(list, facts.present);
    lemma_target_origin(home, facts, i);
    if named.contains(t) {
        what_was_seen_is_kept(list, facts.present, t);
        let k = choose|k: int| 0 <= k < list.len() && list[k] == t;
    }
}

proof fn lemma_added(out: Seq<TargetView>, found: Seq<TargetView>, t: TargetView)
    requires
        with_unclaimed(out, found).contains(t),
    ensures
        out.contains(t) || (found.contains(t) && !claims(out, t.0)),
{
    let all = with_unclaimed(out, found);
    let k = choose|k: int| 0 <= k < all.len() && all[k] == t;
    a_claim_stands(out, found);
    if k < out.len() {
        assert(all.subrange(0, out.len() as int)[k] == out[k]);
        assert(out[k] == t);
    }
}

proof fn lemma_claim_kept(out: Seq<TargetView>, found: Seq<TargetView>, path: PathView)
    requires
        claims(out, path),
    ensures
        claims(with_unclaimed(out, found), path),
{
    let all = with_unclaimed(out, found);
    let k = choose|k: int| 0 <= k < out.len() && same_path((#[trigger] out[k]).0, path);
    a_claim_stands(out, found);
    assert(all.subrange(0, out.len() as int)[k] == out[k]);
    assert(same_path(all[k].0, path));
}

/// Where a target comes from; what a sweep or Homebrew adds is at none of the
/// named places, but for what Homebrew says of its own.
proof fn lemma_target_origin(home: PathView, facts: SystemFactsView, i: int)
    requires
        0 <= i < all_system_targets(home, facts).len(),
    ensures
        ({
            let t = all_system_targets(home, facts)[i];
            let named = seen_on_disk(candidates(home, facts.derived_data), facts.present);
            ||| named.contains(t)
            ||| facts.brew matches Some(text) && t == (
                path_of(trimmed(text)),
                Category::HomebrewCache,
            )
            ||| !claims(named, t.0) && (traces(
                darwin_dirs(facts.tmpdir, facts.getconf),
                facts.recordings,
                facts.temp_entries,
            ).contains(t) || facts.web_caches.contains(t) || swept_containers(
                home,
                facts.file_providers,
                facts.containers,
            ).contains(t) || app_cache_targets(
                path_join(home, "Library/Caches"@),
                facts.app_caches,
                facts.vendor_caches,
            ).contains(t))
        }),
{
    let all = all_system_targets(home, facts);
    let t = all[i];
    let named = seen_on_disk(candidates(home, facts.derived_data), facts.present);
    let found = traces(
        darwin_dirs(facts.tmpdir, facts.getconf),
        facts.recordings,
        facts.temp_entries,
    );
    let recorded = with_unclaimed(named, found);
    let web = with_unclaimed(recorded, facts.web_caches);
    let swept = swept_containers(home, facts.file_providers, facts.containers);
    let claimed = with_unclaimed(web, swept);
    let brewed = claimed + brew_target(facts);
    let apps = app_cache_targets(
        path_join(home, "Library/Caches"@),
        facts.app_caches,
        facts.vendor_caches,
    );
    assert(all.contains(t));
    lemma_added(brewed, apps, t);
    if claims(named, t.0) {
        lemma_claim_kept(named, found, t.0);
        lemma_claim_kept(recorded, facts.web_caches, t.0);
        lemma_claim_kept(web, swept, t.0);
        let k = choose|k: int| 0 <= k < claimed.len() && same_path((#[trigger] claimed[k]).0, t.0);
        assert(same_path(brewed[k].0, t.0));
        assert(claims(brewed, t.0));
    }
    if brewed.contains(t) {
        let k = choose|k: int| 0 <= k < brewed.len() && brewed[k] == t;
        if k < claimed.len() {
            assert(claimed[k] == t);
            lemma_added(web, swept, t);
            if web.contains(t) {
                lemma_added(recorded, facts.web_caches, t);
                if recorded.contains(t) {
                    lemma_added(named, found, t);
                }
            }
        } else {
            assert(brew_target(facts)[k - claimed.len()] == t);
        }
    }
}

/// A place that holds real state is never reported under a category that may be
/// swept, but where Homebrew itself says that its cache is there.
pub proof fn real_state_is_never_swept(home: PathView, facts: SystemFactsView, p: PathView, i: int)
    requires
        p == path_join(home, "Library/Developer/CoreSimulator/Devices"@)
            || p == path_of("/Library/Developer/CoreSimulator/Caches"@)
            || p == path_of("/Library/Developer/CoreSimulator/Images"@)
            || p == path_join(home, "Library/Application Support/MobileSync/Backup"@)
            || p == path_join(home, "Library/Application Support/FileProvider"@)
            || p == path_join(home, "Library/Application Support/Google/DriveFS"@)
            || p == path_join(home, "Library/Containers/com.apple.photoanalysisd/Data/Library/Caches"@)
            || p == path_join(home, "Library/Containers/com.apple.mediaanalysisd/Data/Library/Caches"@)
            || p == path_join(home, "Library/Containers/com.apple.texttospeech.SiriAUSP/Data/Library/Caches"@)
            || p == path_join(home, "Library/Containers/com.docker.docker/Data"@)
            || p == path_join(home, "Library/Android/sdk"@)
            || p == path_join(home, ".android/avd"@),
        facts.present.contains(p),
        0 <= i < all_system_targets(home, facts).len(),
        same_path(all_system_targets(home, facts)[i].0, p),
        !(facts.brew matches Some(text) && same_path(path_of(trimmed(text)), p)),
    ensures
        !all_system_targets(home, facts)[i].1.is_regenerable(),
{
    let all = all_system_targets(home, facts);
    let t = all[i];
    let list = candidates(home, facts.derived_data);
    let named = seen_on_disk(list, facts.present);
    assert(holds_state(home, p));
    lemma_target_origin(home, facts, i);
    if named.contains(t) {
        what_was_seen_is_kept(list, facts.present, t);
        let k = choose|k: int| 0 <= k < list.len() && list[k] == t;
        if t.1.is_regenerable() {
            lemma_state_is_apart(home, facts.derived_data, p, k);
        }
    } else {
        lemma_state_is_listed(home, facts.derived_data, p);
        let k = choose|k: int| 0 <= k < list.len() && (#[trigger] list[k]).0 == p;
        assert(list.contains(list[k]));
        lemma_named_place(home, facts, list[k]);
        let n = choose|n: int| 0 <= n < named.len() && named[n] == list[k];
        assert(same_path(named[n].0, t.0));
        assert(claims(named, t.0));
    }
}

proof fn lemma_state_is_listed(home: PathView, resolved: Option<PathView>, p: PathView)
    requires
        holds_state(home, p),
    ensures
        exists|k: int|
            0 <= k < candidates(home, resolved).len() && (#[trigger] candidates(
                home,
                resolved,
            )[k]).0 == p,
{
    let list = candidates(home, resolved);
    assert(list[2].0 == path_join(home, "Library/Developer/CoreSimulator/Devices"@));
    assert(list[3].0 == path_of("/Library/Developer/CoreSimulator/Caches"@));
    assert(list[4].0 == path_of("/Library/Developer/CoreSimulator/Images"@));
    assert(list[10].0 == path_join(home, "Library/Application Support/MobileSync/Backup"@));
    assert(list[11].0 == path_join(home, "Library/Application Support/FileProvider"@));
    assert(list[12].0 == path_join(home, "Library/Application Support/Google/DriveFS"@));
    assert(list[13].0 == path_join(home, "Library/Containers/com.apple.photoanalysisd/Data/Library/Caches"@));
    assert(list[14].0 == path_join(home, "Library/Containers/com.apple.mediaanalysisd/Data/Library/Caches"@));
    assert(list[15].0 == path_join(home, "Library/Containers/com.apple.texttospeech.SiriAUSP/Data/Library/Caches"@));
    assert(list[16].0 == path_join(home, "Library/Containers/com.docker.docker/Data"@));
    assert(list[17].0 == path_join(home, "Library/Android/sdk"@));
    assert(list[18].0 == path_join(home, ".android/avd"@));
}

/// The walk keeps out of the system, of mounts, of the trash, of ~/Library and of
/// what package managers, editors and version managers installed, and of nothing
/// else.
pub proof fn these_places_are_skipped_and_no_others(home: PathView, path: PathView)
    ensures
        under_any(path, default_skips(home)) <==> (is_inside(path, path_of("/System"@))
            || is_inside(path, path_of("/private"@))
            || is_inside(path, path_of("/dev"@))
            || is_inside(path, path_of("/Volumes"@))
            || is_inside(path, path_of("/proc"@))
            || is_inside(path, path_of("/opt/homebrew"@))
            || is_inside(path, path_of("/usr/local/Homebrew"@))
            || is_inside(path, path_of("/usr/local/Cellar"@))
            || is_inside(path, path_of("/home/linuxbrew/.linuxbrew"@))
            || is_inside(path, path_of("/opt/anaconda3"@))
            || is_inside(path, path_of("/opt/miniconda3"@))
            || is_inside(path, path_of("/opt/miniforge3"@))
            || is_inside(path, path_of("/usr/local/lib/node_modules"@))
            || is_inside(path, path_join(home, "Library"@))
            || is_inside(path, path_join(home, ".Trash"@))
            || is_inside(path, path_join(home, "Library/CloudStorage"@))
            || is_inside(path, path_join(home, "Library/Mobile Documents"@))
            || is_inside(path, path_join(home, "Library/Group Containers"@))
            || is_inside(path, path_join(home, "anaconda3"@))
            || is_inside(path, path_join(home, "miniconda3"@))
            || is_inside(path, path_join(home, "miniforge3"@))
            || is_inside(path, path_join(home, ".npm-global"@))
            || is_inside(path, path_descend(home, ".vscode/extensions"@))
            || is_inside(path, path_descend(home, ".vscode-server/extensions"@))
            || is_inside(path, path_descend(home, ".cursor/extensions"@))
            || is_inside(path, path_descend(home, ".windsurf/extensions"@))
            || is_inside(path, path_descend(home, ".bun/install/global"@))
            || is_inside(path, path_descend(home, ".nvm"@))
            || is_inside(path, path_descend(home, ".fnm"@))
            || is_inside(path, path_descend(home, ".local/share/fnm"@))
            || is_inside(path, path_descend(home, ".volta"@))
            || is_inside(path, path_descend(home, ".nodenv"@))
            || is_inside(path, path_descend(home, ".asdf"@))
            || is_inside(path, path_descend(home, ".rbenv"@))
            || is_inside(path, path_descend(home, ".local/share/mise"@))
            || is_inside(path, path_descend(home, ".pyenv"@))),
{
    let all = default_skips(home);
    assert(all[0] == path_of("/System"@));
    assert(all[1] == path_of("/private"@));
    assert(all[2] == path_of("/dev"@));
    assert(all[3] == path_of("/Volumes"@));
    assert(all[4] == path_of("/proc"@));
    assert(all[5] == path_join(home, "Library"@));
    assert(all[6] == path_join(home, ".Trash"@));
    assert(all[7] == path_join(home, "Library/CloudStorage"@));
    assert(all[8] == path_join(home, "Library/Mobile Documents"@));
    assert(all[9] == path_join(home, "Library/Group Containers"@));
    assert(all[10] == path_of("/opt/homebrew"@));
    assert(all[11] == path_of("/usr/local/Homebrew"@));
    assert(all[12] == path_of("/usr/local/Cellar"@));
    assert(all[13] == path_of("/home/linuxbrew/.linuxbrew"@));
    assert(all[14] == path_of("/opt/anaconda3"@));
    assert(all[15] == path_of("/opt/miniconda3"@));
    assert(all[16] == path_of("/opt/miniforge3"@));
    assert(all[17] == path_join(home, "anaconda3"@));
    assert(all[18] == path_join(home, "miniconda3"@));
    assert(all[19] == path_join(home, "miniforge3"@));
    assert(all[20] == path_descend(home, ".vscode/extensions"@));
    assert(all[21] == path_descend(home, ".vscode-server/extensions"@));
    assert(all[22] == path_descend(home, ".cursor/extensions"@));
    assert(all[23] == path_descend(home, ".windsurf/extensions"@));
    assert(all[24] == path_descend(home, ".bun/install/global"@));
    assert(all[25] == path_join(home, ".npm-global"@));
    assert(all[26] == path_of("/usr/local/lib/node_modules"@));
    assert(all[27] == path_descend(home, ".nvm"@));
    assert(all[28] == path_descend(home, ".fnm"@));
    assert(all[29] == path_descend(home, ".local/share/fnm"@));
    assert(all[30] == path_descend(home, ".volta"@));
    assert(all[31] == path_descend(home, ".nodenv"@));
    assert(all[32] == path_descend(home, ".asdf"@));
    assert(all[33] == path_descend(home, ".rbenv"@));
    assert(all[34] == path_descend(home, ".local/share/mise"@));
    assert(all[35] == path_descend(home, ".pyenv"@));
    assert(all.len() == 36);
    if under_any(path, all) {
        let i = choose|i: int| 0 <= i < all.len() && is_inside(path, #[trigger] all[i]);
        lemma_skip_is_named(home, i);
    }
}

proof fn lemma_skip_is_named(home: PathView, i: int)
    requires
        0 <= i < default_skips(home).len(),
    ensures
        ({
            let skip = default_skips(home)[i];
            ||| skip == path_of("/System"@)
            ||| skip == path_of("/private"@)
            ||| skip == path_of("/dev"@)
            ||| skip == path_of("/Volumes"@)
            ||| skip == path_of("/proc"@)
            ||| skip == path_of("/opt/homebrew"@)
            ||| skip == path_of("/usr/local/Homebrew"@)
            ||| skip == path_of("/usr/local/Cellar"@)
            ||| skip == path_of("/home/linuxbrew/.linuxbrew"@)
            ||| skip == path_of("/opt/anaconda3"@)
            ||| skip == path_of("/opt/miniconda3"@)
            ||| skip == path_of("/opt/miniforge3"@)
            ||| skip == path_of("/usr/local/lib/node_modules"@)
            ||| skip == path_join(home, "Library"@)
            ||| skip == path_join(home, ".Trash"@)
            ||| skip == path_join(home, "Library/CloudStorage"@)
            ||| skip == path_join(home, "Library/Mobile Documents"@)
            ||| skip == path_join(home, "Library/Group Containers"@)
            ||| skip == path_join(home, "anaconda3"@)
            ||| skip == path_join(home, "miniconda3"@)
            ||| skip == path_join(home, "miniforge3"@)
            ||| skip == path_join(home, ".npm-global"@)
            ||| skip == path_descend(home, ".vscode/extensions"@)
            ||| skip == path_descend(home, ".vscode-server/extensions"@)
            ||| skip == path_descend(home, ".cursor/extensions"@)
            ||| skip == path_descend(home, ".windsurf/extensions"@)
            ||| skip == path_descend(home, ".bun/install/global"@)
            ||| skip == path_descend(home, ".nvm"@)
            ||| skip == path_descend(home, ".fnm"@)
            ||| skip == path_descend(home, ".local/share/fnm"@)
            ||| skip == path_descend(home, ".volta"@)
            ||| skip == path_descend(home, ".nodenv"@)
            ||| skip == path_descend(home, ".asdf"@)
            ||| skip == path_descend(home, ".rbenv"@)
            ||| skip == path_descend(home, ".local/share/mise"@)
            ||| skip == path_descend(home, ".pyenv"@)
        }),
{
    let fixed = fixed_skips(home);
    let prefixes = package_prefixes(home);
    let roots = software_roots(home);
    let runtimes = version_manager_roots(home);
    let all = default_skips(home);
    let a = fixed.len() as int;
    let b = a + prefixes.len();
    let c = b + roots.len();
    if i < a {
        assert(all[i] == fixed[i]);
    } else if i < b {
        assert(all[i] == prefixes[i - a]);
    } else if i < c {
        assert(all[i] == roots[i - b]);
    } else {
        assert(all[i] == runtimes[i - c]);
    }
}

/// Two entries of ~/Library/Caches hold a cloud account's state, three cost more
/// than a download, and every other one is an ordinary cache.
pub proof fn five_caches_are_held_back(name: Seq<char>)
    ensures
        name == "com.apple.bird"@ ==> held_back(name) == Some(Category::CloudMirror),
        name == "CloudKit"@ ==> held_back(name) == Some(Category::CloudMirror),
        name == "com.spotify.client"@ ==> held_back(name) == Some(Category::ExpensiveCache),
        name == "JetBrains"@ ==> held_back(name) == Some(Category::ExpensiveCache),
        name == "GeoServices"@ ==> held_back(name) == Some(Category::ExpensiveCache),
        name != "com.apple.bird"@ && name != "CloudKit"@ && name != "com.spotify.client"@ && name
            != "JetBrains"@ && name != "GeoServices"@ ==> held_back(name) is None,
{
    lemma_held_back_differ();
}

proof fn lemma_held_back_differ()
    ensures
        "com.apple.bird"@.len() == 14,
        "CloudKit"@.len() == 8,
        "com.spotify.client"@.len() == 18,
        "JetBrains"@.len() == 9,
        "GeoServices"@.len() == 11,
{
    reveal_strlit("com.apple.bird");
    reveal_strlit("CloudKit");
    reveal_strlit("com.spotify.client");
    reveal_strlit("JetBrains");
    reveal_strlit("GeoServices");
}

proof fn lemma_app_kept(
    caches: PathView,
    names: Seq<PartView>,
    vendor: Seq<PartView>,
    i: int,
    t: TargetView,
)
    requires
        0 <= i < names.len(),
        app_targets(caches, names[i], vendor).contains(t),
    ensures
        app_cache_targets(caches, names, vendor).contains(t),
    decreases names.len(),
{
    let front = app_cache_targets(caches, names.drop_last(), vendor);
    let more = app_targets(caches, names.last(), vendor);
    let all = app_cache_targets(caches, names, vendor);
    if i < names.len() - 1 {
        lemma_app_kept(caches, names.drop_last(), vendor, i, t);
        let k = choose|k: int| 0 <= k < front.len() && front[k] == t;
        assert(all[k] == t);
    } else {
        let k = choose|k: int| 0 <= k < more.len() && more[k] == t;
        assert(all[front.len() + k] == t);
    }
}

/// Every app's cache is listed by itself: as an ordinary cache, unless its name
/// is one of those that are held back.
pub proof fn every_app_is_listed(
    caches: PathView,
    names: Seq<PartView>,
    vendor: Seq<PartView>,
    i: int,
    name: Seq<char>,
)
    requires
        0 <= i < names.len(),
        names[i] == PartView::Name(name),
        name != "Google"@,
    ensures
        ({
            let all = app_cache_targets(caches, names, vendor);
            let path = caches.child(names[i]);
            &&& name == "com.apple.bird"@ || name == "CloudKit"@ ==> all.contains(
                (path, Category::CloudMirror),
            )
            &&& name == "com.spotify.client"@ || name == "JetBrains"@ || name == "GeoServices"@
                ==> all.contains((path, Category::ExpensiveCache))
            &&& name != "com.apple.bird"@ && name != "CloudKit"@ && name != "com.spotify.client"@
                && name != "JetBrains"@ && name != "GeoServices"@ ==> all.contains(
                (path, Category::MacOsCaches),
            )
        }),
{
    five_caches_are_held_back(name);
    let one = app_targets(caches, names[i], vendor);
    let t = (caches.child(names[i]), app_category(name));
    assert(one[0] == t);
    lemma_app_kept(caches, names, vendor, i, t);
}

/// In the folder that Google's apps share every app is listed by itself: Chrome,
/// of any channel, held back, and the others as ordinary caches, unless their
/// name is held back everywhere.
pub proof fn every_app_of_the_vendor_is_listed(
    caches: PathView,
    names: Seq<PartView>,
    vendor: Seq<PartView>,
    i: int,
    k: int,
    name: Seq<char>,
)
    requires
        0 <= i < names.len(),
        names[i] == PartView::Name("Google"@),
        0 <= k < vendor.len(),
        vendor[k] == PartView::Name(name),
    ensures
        ({
            let all = app_cache_targets(caches, names, vendor);
            let path = caches.child(names[i]).child(vendor[k]);
            &&& name == "Chrome"@ || "Chrome "@.is_prefix_of(name) ==> all.contains(
                (path, Category::ExpensiveCache),
            )
            &&& !(name == "Chrome"@ || "Chrome "@.is_prefix_of(name)) && held_back(name) is None
                ==> all.contains((path, Category::MacOsCaches))
        }),
{
    let dir = caches.child(names[i]);
    let inside = vendor_targets(dir, vendor);
    let t = (dir.child(vendor[k]), vendor_category(name));
    assert(inside[k] == t);
    lemma_app_kept(caches, names, vendor, i, t);
}

/// Nothing but the entries of ~/Library/Caches and of the shared folder in it is
/// listed there, none of them under another category.
pub proof fn only_apps_are_listed(
    caches: PathView,
    names: Seq<PartView>,
    vendor: Seq<PartView>,
    i: int,
)
    requires
        0 <= i < app_cache_targets(caches, names, vendor).len(),
    ensures
        ({
            let t = app_cache_targets(caches, names, vendor)[i];
            ||| exists|n: int|
                0 <= n < names.len() && part_text(#[trigger] names[n]) != "Google"@ && t == (
                    caches.child(names[n]),
                    app_category(part_text(names[n])),
                )
            ||| exists|n: int, k: int|
                0 <= n < names.len() && 0 <= k < vendor.len() && part_text(#[trigger] names[n])
                    == "Google"@ && t == (
                    caches.child(names[n]).child(#[trigger] vendor[k]),
                    vendor_category(part_text(vendor[k])),
                )
        }),
    decreases names.len(),
{
    let front = app_cache_targets(caches, names.drop_last(), vendor);
    let all = app_cache_targets(caches, names, vendor);
    let last = names.len() - 1;
    if i < front.len() {
        only_apps_are_listed(caches, names.drop_last(), vendor, i);
        let some = names.drop_last();
        let t = front[i];
        assert(all[i] == t);
        if exists|n: int|
            0 <= n < some.len() && part_text(#[trigger] some[n]) != "Google"@ && t == (
                caches.child(some[n]),
                app_category(part_text(some[n])),
            ) {
            let n = choose|n: int|
                0 <= n < some.len() && part_text(#[trigger] some[n]) != "Google"@ && t == (
                    caches.child(some[n]),
                    app_category(part_text(some[n])),
                );
            assert(names[n] == some[n]);
        } else {
            let (n, k) = choose|n: int, k: int|
                0 <= n < some.len() && 0 <= k < vendor.len() && part_text(#[trigger] some[n])
                    == "Google"@ && t == (
                    caches.child(some[n]).child(#[trigger] vendor[k]),
                    vendor_category(part_text(vendor[k])),
                );
            assert(names[n] == some[n]);
        }
    } else {
        let k = i - front.len();
        assert(all[i] == app_targets(caches, names[last], vendor)[k]);
        if is_vendor_folder(names[last]) {
            assert(all[i].0 == caches.child(names[last]).child(vendor[k]));
        } else {
            assert(all[i].0 == caches.child(names[last]));
        }
    }
}

/// An app's cache is an ordinary one unless its name is held back, and in the
/// shared folder Chrome's is held back besides.
pub proof fn ordinary_caches_may_be_swept(name: Seq<char>)
    ensures
        held_back(name) is None ==> app_category(name) == Category::MacOsCaches,
        held_back(name) matches Some(cat) ==> app_category(name) == cat,
        name == "Chrome"@ || "Chrome "@.is_prefix_of(name) ==> vendor_category(name)
            == Category::ExpensiveCache,
        !(name == "Chrome"@ || "Chrome "@.is_prefix_of(name)) ==> vendor_category(name)
            == app_category(name),
{
}

proof fn lemma_ktrace(stem: Seq<char>)
    requires
        stem.len() > 0,
    ensures
        extension_of(stem.push('.') + "ktrace"@) == Some("ktrace"@),
{
    reveal_strlit("ktrace");
    assert forall|i: int| 0 <= i < "ktrace"@.len() implies #[trigger] "ktrace"@[i] != '.' by {
        if i == 0 {
        } else if i == 1 {
        } else if i == 2 {
        } else if i == 3 {
        } else if i == 4 {
        } else {
            assert(i == 5);
        }
    }
    an_extension_follows_the_last_dot(stem, "ktrace"@);
}

proof fn lemma_trace_kept(temp: PathView, names: Seq<PartView>, i: int)
    requires
        0 <= i < names.len(),
        path_extension(temp.child(names[i])) == Some("ktrace"@),
    ensures
        loose_traces(temp, names).contains((temp.child(names[i]), Category::InstrumentsTraces)),
    decreases names.len(),
{
    let front = loose_traces(temp, names.drop_last());
    let all = loose_traces(temp, names);
    let t = (temp.child(names[i]), Category::InstrumentsTraces);
    if i < names.len() - 1 {
        lemma_trace_kept(temp, names.drop_last(), i);
        let k = choose|k: int| 0 <= k < front.len() && front[k] == t;
        assert(all[k] == t);
    } else {
        assert(all[front.len() as int] == t);
    }
}

/// Abandoned recordings in the temp directory are reported, and the directory of
/// recordings where it is there.
pub proof fn recordings_are_reported(
    cache: PathView,
    temp: PathView,
    recordings: bool,
    names: Seq<PartView>,
    i: int,
    stem: Seq<char>,
)
    requires
        0 <= i < names.len(),
        stem.len() > 0,
        names[i] == PartView::Name(stem.push('.') + "ktrace"@),
    ensures
        traces(Some((cache, temp)), recordings, names).contains(
            (temp.child(names[i]), Category::InstrumentsTraces),
        ),
        recordings ==> traces(Some((cache, temp)), recordings, names).contains(
            (path_join(cache, "com.apple.dt.Instruments"@), Category::InstrumentsTraces),
        ),
{
    let all = traces(Some((cache, temp)), recordings, names);
    let loose = loose_traces(temp, names);
    lemma_ktrace(stem);
    assert(temp.child(names[i]).steps.last().part == names[i]);
    lemma_trace_kept(temp, names, i);
    let t = (temp.child(names[i]), Category::InstrumentsTraces);
    let k = choose|k: int| 0 <= k < loose.len() && loose[k] == t;
    if recordings {
        assert(all[k + 1] == t);
        assert(all[0].1 == Category::InstrumentsTraces);
        assert(all[0] == (
            path_join(cache, "com.apple.dt.Instruments"@),
            Category::InstrumentsTraces,
        ));
    } else {
        assert(all[k] == t);
    }
}

proof fn lemma_trace_origin(temp: PathView, names: Seq<PartView>, k: int) -> (i: int)
    requires
        0 <= k < loose_traces(temp, names).len(),
    ensures
        0 <= i < names.len(),
        loose_traces(temp, names)[k] == (temp.child(names[i]), Category::InstrumentsTraces),
        path_extension(temp.child(names[i])) == Some("ktrace"@),
    decreases names.len(),
{
    let front = loose_traces(temp, names.drop_last());
    if k < front.len() {
        lemma_trace_origin(temp, names.drop_last(), k)
    } else {
        names.len() - 1
    }
}

/// Nothing else in the temp directory is taken for a recording: only entries
/// whose name ends in `.ktrace`.
pub proof fn only_recordings_are_taken(
    cache: PathView,
    temp: PathView,
    recordings: bool,
    names: Seq<PartView>,
    k: int,
)
    requires
        0 <= k < traces(Some((cache, temp)), recordings, names).len(),
    ensures
        ({
            let t = traces(Some((cache, temp)), recordings, names)[k];
            &&& t.1 == Category::InstrumentsTraces
            &&& {
                ||| recordings && t.0 == path_join(cache, "com.apple.dt.Instruments"@)
                ||| exists|i: int|
                    0 <= i < names.len() && t.0 == temp.child(#[trigger] names[i])
                        && ".ktrace"@.is_suffix_of(part_text(names[i]))
            }
        }),
{
    let all = traces(Some((cache, temp)), recordings, names);
    let first = if recordings {
        1int
    } else {
        0
    };
    if k >= first {
        let i = lemma_trace_origin(temp, names, k - first);
        assert(all[k] == loose_traces(temp, names)[k - first]);
        let name = part_text(names[i]);
        assert(temp.child(names[i]).steps.last().part == names[i]);
        every_extension_follows_a_dot(name);
        reveal_strlit("ktrace");
        reveal_strlit(".ktrace");
        let at = name.len() - 7;
        assert(name.skip(at + 1) == "ktrace"@);
        assert(name[at] == '.');
        let tail = name.subrange(at, name.len() as int);
        assert forall|j: int| 0 <= j < 7 implies tail[j] == ".ktrace"@[j] by {
            if j == 0 {
            } else {
                assert(name.skip(at + 1)[j - 1] == name[at + j]);
                assert("ktrace"@[j - 1] == ".ktrace"@[j]) by {
                    if j == 1 {
                    } else if j == 2 {
                    } else if j == 3 {
                    } else if j == 4 {
                    } else if j == 5 {
                    } else {
                        assert(j == 6);
                    }
                }
            }
        }
        assert(tail =~= ".ktrace"@);
    } else {
        assert(all[0].0 == path_join(cache, "com.apple.dt.Instruments"@));
    }
}

/// A container belongs to a sync provider when its name is that of the
/// extension, or one of the two is the other's with further segments behind a
/// dot.
pub proof fn providers_are_known_by_whole_segments(
    name: Seq<char>,
    id: Seq<char>,
    providers: Seq<Seq<char>>,
    i: int,
)
    requires
        0 <= i < providers.len(),
        providers[i] == id,
        id == name || (name.len() < id.len() && id.take(name.len() as int) == name && id[
            name.len() as int
        ] == '.') || (id.len() < name.len() && name.take(id.len() as int) == id && name[
            id.len() as int
        ] == '.'),
    ensures
        belongs_to_provider(name, providers),
{
    reveal_strlit(".");
    if id.len() > name.len() {
        assert((name + "."@) =~= id.subrange(0, (name + "."@).len() as int)) by {
            assert forall|j: int| 0 <= j < name.len() implies name[j] == id[j] by {
                assert(id.take(name.len() as int)[j] == id[j]);
            }
        }
    } else if id.len() < name.len() {
        assert((id + "."@) =~= name.subrange(0, (id + "."@).len() as int)) by {
            assert forall|j: int| 0 <= j < id.len() implies id[j] == name[j] by {
                assert(name.take(id.len() as int)[j] == name[j]);
            }
        }
    }
    assert(related(name, providers[i]));
}

/// No other container belongs to one.
pub proof fn other_containers_belong_to_no_provider(name: Seq<char>, providers: Seq<Seq<char>>)
    requires
        forall|i: int|
            0 <= i < providers.len() ==> {
                let id = #[trigger] providers[i];
                &&& id != name
                &&& !(name.len() < id.len() && id.take(name.len() as int) == name && id[
                    name.len() as int
                ] == '.')
                &&& !(id.len() < name.len() && name.take(id.len() as int) == id && name[
                    id.len() as int
                ] == '.')
            },
    ensures
        !belongs_to_provider(name, providers),
{
    reveal_strlit(".");
    if belongs_to_provider(name, providers) {
        let i = choose|i: int| 0 <= i < providers.len() && related(name, #[trigger] providers[i]);
        let id = providers[i];
        if (name + "."@).is_prefix_of(id) {
            let front = id.subrange(0, (name + "."@).len() as int);
            assert(front[name.len() as int] == (name + "."@)[name.len() as int]);
            assert(id.take(name.len() as int) =~= name) by {
                assert forall|j: int| 0 <= j < name.len() implies id[j] == name[j] by {
                    assert(front[j] == (name + "."@)[j]);
                }
            }
        } else if (id + "."@).is_prefix_of(name) {
            let front = name.subrange(0, (id + "."@).len() as int);
            assert(front[id.len() as int] == (id + "."@)[id.len() as int]);
            assert(name.take(id.len() as int) =~= id) by {
                assert forall|j: int| 0 <= j < id.len() implies name[j] == id[j] by {
                    assert(front[j] == (id + "."@)[j]);
                }
            }
        }
    }
}

/// Every container that has a cache at the sandbox path is reported: a sync
/// provider's as a mirror, any other as a cache of its app.
pub proof fn every_container_cache_is_reported(
    containers: PathView,
    providers: Seq<Seq<char>>,
    entries: Seq<ContainerView>,
    i: int,
)
    requires
        0 <= i < entries.len(),
        entries[i].has_cache,
    ensures
        container_targets(containers, providers, entries).contains(
            (
                path_join(containers.child(entries[i].name), "Data/Library/Caches"@),
                if belongs_to_provider(part_text(entries[i].name), providers) {
                    Category::CloudMirror
                } else {
                    Category::ContainerCaches
                },
            ),
        ),
    decreases entries.len(),
{
    let front = container_targets(containers, providers, entries.drop_last());
    let all = container_targets(containers, providers, entries);
    let e = entries[i];
    let t = (container_cache_dir(containers, e.name), container_category(e.name, providers));
    if i < entries.len() - 1 {
        every_container_cache_is_reported(containers, providers, entries.drop_last(), i);
        let k = choose|k: int| 0 <= k < front.len() && front[k] == t;
        assert(all[k] == t);
    } else {
        assert(all[front.len() as int] == t);
    }
}

/// Nothing else in a container is reported, and nothing under another category.
pub proof fn only_container_caches_are_reported(
    containers: PathView,
    providers: Seq<Seq<char>>,
    entries: Seq<ContainerView>,
    k: int,
)
    requires
        0 <= k < container_targets(containers, providers, entries).len(),
    ensures
        exists|i: int|
            0 <= i < entries.len() && (#[trigger] entries[i]).has_cache && container_targets(
                containers,
                providers,
                entries,
            )[k] == (
                path_join(containers.child(entries[i].name), "Data/Library/Caches"@),
                if belongs_to_provider(part_text(entries[i].name), providers) {
                    Category::CloudMirror
                } else {
                    Category::ContainerCaches
                },
            ),
    decreases entries.len(),
{
    let front = container_targets(containers, providers, entries.drop_last());
    let all = container_targets(containers, providers, entries);
    let some = entries.drop_last();
    if k < front.len() {
        only_container_caches_are_reported(containers, providers, some, k);
        let i = choose|i: int|
            0 <= i < some.len() && (#[trigger] some[i]).has_cache && front[k] == (
                path_join(containers.child(some[i].name), "Data/Library/Caches"@),
                if belongs_to_provider(part_text(some[i].name), providers) {
                    Category::CloudMirror
                } else {
                    Category::ContainerCaches
                },
            );
        assert(entries[i] == some[i] && all[k] == front[k]);
    } else {
        assert(entries[entries.len() - 1].has_cache);
    }
}

/// Build caches outside of any project are looked for in two places, and
/// reported as Rust builds.
pub proof fn shared_build_caches_are_rust_builds(home: PathView, present: Seq<PathView>, t: TargetView)
    ensures
        seen_on_disk(build_cache_candidates(home), present).contains(t) <==> (t == (
            path_join(home, ".build_caches/cargo"@),
            Category::RustTarget,
        ) || t == (path_of("/tmp/cargo-target"@), Category::RustTarget)) && exists|k: int|
            0 <= k < present.len() && (#[trigger] present[k]).parts() == t.0.parts(),
{
    let list = build_cache_candidates(home);
    what_was_seen_is_kept(list, present, t);
    assert(list[0] == (path_join(home, ".build_caches/cargo"@), Category::RustTarget));
    assert(list[1] == (path_of("/tmp/cargo-target"@), Category::RustTarget));
}

/// Homebrew's cache is reported where it said that it is, if something is there.
pub proof fn homebrews_cache_is_where_it_says(facts: SystemFactsView)
    ensures
        facts.brew matches Some(text) && facts.present.contains(path_of(trimmed(text)))
            ==> brew_target(facts) == seq![
            (path_of(trimmed(facts.brew->0)), Category::HomebrewCache),
        ],
        facts.brew is None ==> brew_target(facts).len() == 0,
{
    if let Some(text) = facts.brew {
        let path = path_of(trimmed(text));
        if facts.present.contains(path) {
            let k = choose|k: int| 0 <= k < facts.present.len() && facts.present[k] == path;
            assert(same_path(facts.present[k], path));
        }
    }
}

/// The commands that give back what should not be deleted.
pub proof fn the_hints_name_the_right_commands()
    ensures
        hints().len() == 4,
        hints()[0]
            == "Old Rust toolchains: rustup toolchain list, then rustup toolchain uninstall <name>"@,
        hints()[1]
            == "Simulator runtimes under /Library need sudo, or: xcrun simctl runtime delete --all"@,
        hints()[2] == "Homebrew's own files: brew cleanup"@,
        hints()[3] == "Conda's package cache: conda clean --all"@,
{
}

/// The variable that names the home directory.
pub proof fn home_is_named_by_a_variable()
    ensures
        HOME_VAR@ == "$HOME"@,
{
}

/// The per-user cache and temp roots stand side by side, where the temp directory
/// is: TMPDIR, or what getconf printed where TMPDIR is not set. A path that is not
/// absolute leads nowhere.
pub proof fn user_roots_stand_beside_the_temp_directory(
    anchor: PathView,
    getconf: Option<Seq<char>>,
    printed: Seq<char>,
)
    ensures
        darwin_dirs(None, None) is None,
        darwin_dirs(None, Some(printed)) == darwin_dirs(
            Some(path_of(trimmed(printed))),
            Some(printed),
        ),
        !anchor.is_absolute() || path_parent(anchor) is None ==> darwin_dirs(
            Some(anchor),
            getconf,
        ) is None,
        anchor.is_absolute() && path_parent(anchor) is Some ==> darwin_dirs(Some(anchor), getconf)
            == Some(
            (path_join(path_parent(anchor)->0, "C"@), path_join(path_parent(anchor)->0, "T"@)),
        ),
{
}

/// The registry names one provider a line, in front of its version in brackets and
/// with white space round it; a line without a name is passed over.
pub proof fn the_registry_names_a_provider_a_line(
    lines: Seq<Seq<char>>,
    id: Seq<char>,
    version: Seq<char>,
)
    requires
        !id.contains('('),
    ensures
        bundles_of(Seq::empty()) == Seq::<Seq<char>>::empty(),
        trimmed(id).len() > 0 ==> bundles_of(lines.push(id + seq!['('] + version)) == bundles_of(
            lines,
        ).push(trimmed(id)),
        trimmed(id).len() > 0 ==> bundles_of(lines.push(id)) == bundles_of(lines).push(trimmed(id)),
        trimmed(id).len() == 0 ==> bundles_of(lines.push(id + seq!['('] + version)) == bundles_of(
            lines,
        ),
{
    let line = id + seq!['('] + version;
    crate::text::text_ends_before_the_first_stop(id, '(', version);
    assert(lines.push(line).drop_last() =~= lines);
    assert(lines.push(id).drop_last() =~= lines);
}

/// Containers are looked for in ~/Library/Containers, once the registry answered.
pub proof fn containers_are_in_the_library(
    home: PathView,
    answer: Seq<char>,
    entries: Seq<ContainerView>,
)
    ensures
        swept_containers(home, None, entries).len() == 0,
        swept_containers(home, Some(answer), entries) == container_targets(
            path_join(home, "Library/Containers"@),
            bundles_of(lines_of(answer)),
            entries,
        ),
{
}

/// The target is one of those that were found, or at the same place as one.
pub open spec fn is_reported(all: Seq<TargetView>, t: TargetView) -> bool {
    exists|k: int| 0 <= k < all.len() && (#[trigger] all[k]).0.parts() == t.0.parts()
}

proof fn lemma_still_reported(out: Seq<TargetView>, found: Seq<TargetView>, t: TargetView)
    ensures
        is_reported(out, t) ==> is_reported(with_unclaimed(out, found), t),
        found.contains(t) ==> is_reported(with_unclaimed(out, found), t),
{
    let all = with_unclaimed(out, found);
    a_claim_stands(out, found);
    if is_reported(out, t) {
        let k = choose|k: int| 0 <= k < out.len() && (#[trigger] out[k]).0.parts() == t.0.parts();
        assert(all.subrange(0, out.len() as int)[k] == out[k]);
        assert(all[k].0.parts() == t.0.parts());
    }
    if found.contains(t) {
        let i = choose|i: int| 0 <= i < found.len() && found[i] == t;
        assert(claims(all, found[i].0));
        let k = choose|k: int| 0 <= k < all.len() && same_path((#[trigger] all[k]).0, found[i].0);
        assert(all[k].0.parts() == t.0.parts());
    }
}

/// All that was found is reported: the named places, the recordings, the web
/// caches, the caches in containers, Homebrew's and those of the apps.
pub proof fn every_source_is_reported(home: PathView, facts: SystemFactsView, t: TargetView)
    ensures
        seen_on_disk(candidates(home, facts.derived_data), facts.present).contains(t)
            ==> is_reported(all_system_targets(home, facts), t),
        traces(
            darwin_dirs(facts.tmpdir, facts.getconf),
            facts.recordings,
            facts.temp_entries,
        ).contains(t) ==> is_reported(all_system_targets(home, facts), t),
        facts.web_caches.contains(t) ==> is_reported(all_system_targets(home, facts), t),
        swept_containers(home, facts.file_providers, facts.containers).contains(t) ==> is_reported(
            all_system_targets(home, facts),
            t,
        ),
        brew_target(facts).contains(t) ==> all_system_targets(home, facts).contains(t),
        app_cache_targets(
            path_join(home, "Library/Caches"@),
            facts.app_caches,
            facts.vendor_caches,
        ).contains(t) ==> is_reported(all_system_targets(home, facts), t),
{
    let named = seen_on_disk(candidates(home, facts.derived_data), facts.present);
    let found = traces(
        darwin_dirs(facts.tmpdir, facts.getconf),
        facts.recordings,
        facts.temp_entries,
    );
    let recorded = with_unclaimed(named, found);
    let web = with_unclaimed(recorded, facts.web_caches);
    let swept = swept_containers(home, facts.file_providers, facts.containers);
    let claimed = with_unclaimed(web, swept);
    let brewed = claimed + brew_target(facts);
    let apps = app_cache_targets(
        path_join(home, "Library/Caches"@),
        facts.app_caches,
        facts.vendor_caches,
    );
    let all = with_unclaimed(brewed, apps);
    if named.contains(t) {
        let k = choose|k: int| 0 <= k < named.len() && named[k] == t;
        assert(named[k].0.parts() == t.0.parts());
    }
    lemma_still_reported(named, found, t);
    lemma_still_reported(recorded, facts.web_caches, t);
    lemma_still_reported(web, swept, t);
    if is_reported(claimed, t) {
        let k = choose|k: int|
            0 <= k < claimed.len() && (#[trigger] claimed[k]).0.parts() == t.0.parts();
        assert(brewed[k].0.parts() == t.0.parts());
    }
    lemma_still_reported(brewed, apps, t);
    if brew_target(facts).contains(t) {
        a_claim_stands(brewed, apps);
        let k = claimed.len() as int;
        assert(brewed[k] == t);
        assert(all.subrange(0, brewed.len() as int)[k] == t);
        assert(all[k] == t);
    }
}

/// Nothing else is reported: every target comes from one of those sources, as it
/// was found there.
pub proof fn every_target_has_a_source(home: PathView, facts: SystemFactsView, i: int)
    requires
        0 <= i < all_system_targets(home, facts).len(),
    ensures
        ({
            let t = all_system_targets(home, facts)[i];
            ||| seen_on_disk(candidates(home, facts.derived_data), facts.present).contains(t)
            ||| traces(
                darwin_dirs(facts.tmpdir, facts.getconf),
                facts.recordings,
                facts.temp_entries,
            ).contains(t)
            ||| facts.web_caches.contains(t)
            ||| swept_containers(home, facts.file_providers, facts.containers).contains(t)
            ||| brew_target(facts).contains(t)
            ||| app_cache_targets(
                path_join(home, "Library/Caches"@),
                facts.app_caches,
                facts.vendor_caches,
            ).contains(t)
        }),
{
    let named = seen_on_disk(candidates(home, facts.derived_data), facts.present);
    let found = traces(
        darwin_dirs(facts.tmpdir, facts.getconf),
        facts.recordings,
        facts.temp_entries,
    );
    let recorded = with_unclaimed(named, found);
    let web = with_unclaimed(recorded, facts.web_caches);
    let swept = swept_containers(home, facts.file_providers, facts.containers);
    let claimed = with_unclaimed(web, swept);
    let brewed = claimed + brew_target(facts);
    let apps = app_cache_targets(
        path_join(home, "Library/Caches"@),
        facts.app_caches,
        facts.vendor_caches,
    );
    let all = with_unclaimed(brewed, apps);
    a_claim_stands(named, found);
    a_claim_stands(recorded, facts.web_caches);
    a_claim_stands(web, swept);
    a_claim_stands(brewed, apps);
    if i < brewed.len() {
        assert(all.subrange(0, brewed.len() as int)[i] == brewed[i]);
        if i < claimed.len() {
            assert(brewed[i] == claimed[i]);
            if i < web.len() {
                assert(claimed.subrange(0, web.len() as int)[i] == web[i]);
                if i < recorded.len() {
                    assert(web.subrange(0, recorded.len() as int)[i] == recorded[i]);
                    if i < named.len() {
                        assert(recorded.subrange(0, named.len() as int)[i] == named[i]);
                    } else {
                        assert(found.contains(recorded[i]));
                    }
                } else {
                    assert(facts.web_caches.contains(web[i]));
                }
            } else {
                assert(swept.contains(claimed[i]));
            }
        } else {
            assert(brew_target(facts)[i - claimed.len()] == brewed[i]);
        }
    } else {
        assert(apps.contains(all[i]));
    }
}

} // verus!
