//! Windows: where things are, and what is made of what was seen there.

use vstd::prelude::*;

use crate::category::Category;
use crate::clock::Timestamp;
use crate::measure::Measured;
use crate::path::{
    is_inside, lemma_descended_tail, lemma_joined_tail, part_text, path_descend, path_join,
    root_path, same_path, tail_char, FsPath, Parts, PathView,
};
use crate::platform::{
    common_software_roots, env_path, extend_paths, path_view, runtime_roots, set_path,
    shared_software_roots, text_view, version_manager_roots,
};
use crate::scanner::under_any;
use crate::sweep::{Entry, EntryView};
use crate::targets::{
    a_claim_stands, claims, has_path, keep_present, lists, push_unclaimed, seen_on_disk, with_unclaimed, Target,
    TargetView,
    what_was_seen_is_kept,
};
use crate::text::{starts_with, text_is, trim, trimmed, views};

verus! {

broadcast use crate::text::lemma_views_push;

/// Name of the environment variable that points at the user's home, used only
/// to write a sensible error message when it is missing.
pub const HOME_VAR: &'static str = "%USERPROFILE%";

/// The user's home directory. Windows has no `$HOME`; `%USERPROFILE%` is the
/// equivalent, with `%HOMEDRIVE%%HOMEPATH%` as the domain-joined fallback.
pub fn home_dir(profile: Option<FsPath>, fallback: Option<FsPath>) -> (r: Option<FsPath>)
    ensures
        path_view(r) == (match set_path(path_view(profile)) {
            Some(path) => Some(path),
            None => path_view(fallback),
        }),
{
    match env_path(profile) {
        Some(path) => Some(path),
        None => fallback,
    }
}

/// Where the full untruncated report is written, in the session's temp
/// directory.
pub fn report_path(temp: &FsPath) -> (r: FsPath)
    ensures
        r@ == path_descend(temp@, "diskscout-report.txt"@),
{
    temp.descend("diskscout-report.txt")
}

pub open spec fn hints() -> Seq<Seq<char>> {
    seq![
        "Run from an elevated terminal to measure C:\\Windows and other system dirs."@,
        "Component store: dism /Online /Cleanup-Image /StartComponentCleanup"@,
        "Guided system cleanup: cleanmgr /sageset:1"@,
    ]
}

/// Extra advice printed under the report footer, for reclaimable space that
/// this tool can measure but should not delete itself.
pub fn extra_hints() -> (r: Vec<&'static str>)
    ensures
        views(r@) == hints(),
{
    let r: Vec<&'static str> = vec![
        "Run from an elevated terminal to measure C:\\Windows and other system dirs.",
        "Component store: dism /Online /Cleanup-Image /StartComponentCleanup",
        "Guided system cleanup: cleanmgr /sageset:1",
    ];
    assert(views(r@) =~= hints());
    r
}

// ---------------------------------------------------------------------------
// Files
// ---------------------------------------------------------------------------

pub const OFFLINE: u32 = 0x0000_1000;
pub const RECALL_ON_OPEN: u32 = 0x0004_0000;
pub const RECALL_ON_DATA_ACCESS: u32 = 0x0040_0000;
pub const SPARSE: u32 = 0x0000_0200;
pub const COMPRESSED: u32 = 0x0000_0800;
pub const INVALID_FILE_SIZE: u32 = 0xffff_ffff;

/// What `GetCompressedFileSizeW` left behind: the two halves of the size, and
/// the error code that was set after the call.
#[derive(Debug, Clone, Copy)]
pub struct CompressedSize {
    pub low: u32,
    pub high: u32,
    pub error: i32,
}

/// What the file system says of a file.
#[derive(Debug, Clone, Copy)]
pub struct Metadata {
    pub len: u64,
    pub attributes: u32,
    /// Asked for only where `needs_compressed_size` says so.
    pub compressed: Option<CompressedSize>,
    pub modified: Option<Timestamp>,
}

/// The file's bytes live in the cloud only.
pub open spec fn is_placeholder(meta: Metadata) -> bool {
    ||| meta.attributes & OFFLINE != 0
    ||| meta.attributes & RECALL_ON_OPEN != 0
    ||| meta.attributes & RECALL_ON_DATA_ACCESS != 0
}

/// The file may occupy another amount than its length.
pub open spec fn is_packed(meta: Metadata) -> bool {
    meta.attributes & SPARSE != 0 || meta.attributes & COMPRESSED != 0
}

pub open spec fn allocated(meta: Metadata) -> int {
    match meta.compressed {
        Some(size) => if !is_packed(meta) {
            meta.len as int
        } else if size.low == INVALID_FILE_SIZE && size.error != 0 {
            meta.len as int
        } else {
            size.high * 0x1_0000_0000 + size.low
        },
        None => meta.len as int,
    }
}

/// True for files that report a size but hold no local blocks, so counting them
/// would invent reclaimable space that deleting them cannot return. OneDrive
/// "Files On-Demand" placeholders carry their full logical size in metadata
/// while the bytes live only in the cloud.
pub fn occupies_no_local_space(meta: &Metadata) -> (r: bool)
    ensures
        r == is_placeholder(*meta),
{
    let a = meta.attributes;
    assert((a & (0x1000u32 | 0x4_0000u32 | 0x40_0000u32) != 0) == (a & 0x1000u32 != 0 || a
        & 0x4_0000u32 != 0 || a & 0x40_0000u32 != 0)) by (bit_vector);
    a & (OFFLINE | RECALL_ON_OPEN | RECALL_ON_DATA_ACCESS) != 0
}

/// Whether the compressed size of the file has to be asked for. The common case
/// pays only an attribute test already in the metadata.
pub fn needs_compressed_size(attributes: u32) -> (r: bool)
    ensures
        r == (attributes & SPARSE != 0 || attributes & COMPRESSED != 0),
{
    let a = attributes;
    assert((a & (0x200u32 | 0x800u32) == 0) == (a & 0x200u32 == 0 && a & 0x800u32 == 0))
        by (bit_vector);
    a & (SPARSE | COMPRESSED) != 0
}

/// Bytes a file actually occupies. Sparse files -- VM disks, emulator images,
/// database files -- advertise the size they could grow to, so trusting the
/// logical length invents reclaimable space that deleting cannot return. An
/// NTFS-compressed file is the same problem in the other direction.
pub fn size_on_disk(meta: &Metadata) -> (r: u64)
    ensures
        r == allocated(*meta),
{
    if !needs_compressed_size(meta.attributes) {
        return meta.len;
    }
    match meta.compressed {
        Some(size) => {
            // Documented failure signal: INVALID_FILE_SIZE plus a set error code.
            if size.low == INVALID_FILE_SIZE && size.error != 0 {
                return meta.len;
            }
            (size.high as u64) * 0x1_0000_0000u64 + size.low as u64
        },
        None => meta.len,
    }
}

/// Identifies the allocation behind a file when more than one path shares it,
/// which is not looked up here.
pub fn hard_link_id(_meta: &Metadata) -> (r: Option<(u64, u64)>)
    ensures
        r is None,
{
    None
}

pub fn measure(meta: &Metadata) -> (r: Measured)
    ensures
        r.size == allocated(*meta),
        r.local == !is_placeholder(*meta),
        r.link is None,
        r.modified == meta.modified,
{
    Measured {
        size: size_on_disk(meta),
        local: !occupies_no_local_space(meta),
        link: hard_link_id(meta),
        modified: meta.modified,
    }
}

// ---------------------------------------------------------------------------
// Places
// ---------------------------------------------------------------------------

/// The environment variables that say where things are, as they are set.
pub struct WindowsEnv {
    pub local_app_data: Option<FsPath>,
    pub app_data: Option<FsPath>,
    pub system_root: Option<FsPath>,
    pub program_data: Option<FsPath>,
    pub system_drive: Option<String>,
    pub cargo_target_dir: Option<FsPath>,
    /// The session's temp directory.
    pub temp: FsPath,
}

#[verifier::ext_equal]
pub struct WindowsEnvView {
    pub local_app_data: Option<PathView>,
    pub app_data: Option<PathView>,
    pub system_root: Option<PathView>,
    pub program_data: Option<PathView>,
    pub system_drive: Option<Seq<char>>,
    pub cargo_target_dir: Option<PathView>,
    pub temp: PathView,
}

impl View for WindowsEnv {
    type V = WindowsEnvView;

    open spec fn view(&self) -> WindowsEnvView {
        WindowsEnvView {
            local_app_data: path_view(self.local_app_data),
            app_data: path_view(self.app_data),
            system_root: path_view(self.system_root),
            program_data: path_view(self.program_data),
            system_drive: text_view(self.system_drive),
            cargo_target_dir: path_view(self.cargo_target_dir),
            temp: self.temp@,
        }
    }
}

/// The path that a variable holds, or another where it is unset or empty.
pub open spec fn path_or(value: Option<PathView>, other: PathView) -> PathView {
    match set_path(value) {
        Some(path) => path,
        None => other,
    }
}

/// The root directory of a drive.
pub open spec fn drive_root(drive: Seq<char>) -> PathView {
    root_path(drive + "\\"@, '\\')
}

pub open spec fn local_dir(home: PathView, env: WindowsEnvView) -> PathView {
    path_or(env.local_app_data, path_descend(home, "AppData/Local"@))
}

pub open spec fn roaming_dir(home: PathView, env: WindowsEnvView) -> PathView {
    path_or(env.app_data, path_descend(home, "AppData/Roaming"@))
}

pub open spec fn system_dir(env: WindowsEnvView) -> PathView {
    path_or(env.system_root, path_descend(drive_root("C:"@), "Windows"@))
}

pub open spec fn shared_dir(env: WindowsEnvView) -> PathView {
    path_or(env.program_data, path_descend(drive_root("C:"@), "ProgramData"@))
}

pub open spec fn system_drive_dir(env: WindowsEnvView) -> PathView {
    match env.system_drive {
        Some(drive) => drive_root(drive),
        None => drive_root("C:"@),
    }
}

fn set_or(value: &Option<FsPath>, other: FsPath) -> (r: FsPath)
    ensures
        r@ == path_or(path_view(*value), other@),
{
    match value {
        Some(path) => if path.is_empty() {
            other
        } else {
            path.clone()
        },
        None => other,
    }
}

fn root_of(drive: &str) -> (r: FsPath)
    ensures
        r@ == drive_root(drive@),
{
    let mut text = drive.to_owned();
    text.append("\\");
    FsPath::root(text.as_str(), '\\')
}

pub fn local_app_data(home: &FsPath, env: &WindowsEnv) -> (r: FsPath)
    ensures
        r@ == local_dir(home@, env@),
{
    set_or(&env.local_app_data, home.descend("AppData/Local"))
}

pub fn roaming_app_data(home: &FsPath, env: &WindowsEnv) -> (r: FsPath)
    ensures
        r@ == roaming_dir(home@, env@),
{
    set_or(&env.app_data, home.descend("AppData/Roaming"))
}

pub fn windows_dir(env: &WindowsEnv) -> (r: FsPath)
    ensures
        r@ == system_dir(env@),
{
    set_or(&env.system_root, root_of("C:").descend("Windows"))
}

pub fn program_data(env: &WindowsEnv) -> (r: FsPath)
    ensures
        r@ == shared_dir(env@),
{
    set_or(&env.program_data, root_of("C:").descend("ProgramData"))
}

/// %SystemDrive% is "C:" with no trailing separator, and a bare "C:" means "the
/// current directory on C:", not its root -- so append the separator.
pub fn system_drive(env: &WindowsEnv) -> (r: FsPath)
    ensures
        r@ == system_drive_dir(env@),
{
    match &env.system_drive {
        Some(drive) => root_of(drive.as_str()),
        None => root_of("C:"),
    }
}

pub open spec fn software_roots(home: PathView, env: WindowsEnvView) -> Seq<PathView> {
    common_software_roots(home).push(path_descend(roaming_dir(home, env), "npm"@))
}

pub fn installed_software_roots(home: &FsPath, env: &WindowsEnv) -> (r: Vec<FsPath>)
    ensures
        views(r@) == software_roots(home@, env@),
{
    let mut roots = shared_software_roots(home);
    // npm's global prefix: node_modules here *is* the installed tool set.
    roots.push(roaming_app_data(home, env).descend("npm"));
    roots
}

/// Directories searched for a diskscout checkout.
pub open spec fn checkout_roots(home: PathView) -> Seq<PathView> {
    seq![
        path_descend(home, "Developer"@),
        path_descend(home, "source/repos"@),
        path_descend(home, "Documents/GitHub"@),
        path_descend(home, "Projects"@),
        path_descend(home, "Downloads"@),
    ]
}

pub fn workspace_roots(home: &FsPath) -> (r: Vec<FsPath>)
    ensures
        views(r@) == checkout_roots(home@),
{
    let r: Vec<FsPath> = vec![
        home.descend("Developer"),
        home.descend("source/repos"),
        home.descend("Documents/GitHub"),
        home.descend("Projects"),
        home.descend("Downloads"),
    ];
    assert(views(r@) =~= checkout_roots(home@));
    r
}

pub open spec fn fixed_skips(home: PathView, env: WindowsEnvView) -> Seq<PathView> {
    let local = local_dir(home, env);
    let drive = system_drive_dir(env);
    seq![
        system_dir(env),
        path_descend(drive, "$Recycle.Bin"@),
        path_descend(drive, "Windows.old"@),
        path_descend(drive, "$WinREAgent"@),
        path_descend(drive, "System Volume Information"@),
        path_descend(drive, "$GetCurrent"@),
        env.temp,
        path_descend(local, "Temp"@),
        path_descend(local, "Microsoft/WindowsApps"@),
        path_descend(local, "Packages"@),
    ]
}

/// Where Scoop, conda, per-user installers and the managers of runtime versions
/// put what they install, and where OneDrive is mounted.
pub open spec fn guarded_roots(home: PathView, env: WindowsEnvView) -> Seq<PathView> {
    let local = local_dir(home, env);
    let roaming = roaming_dir(home, env);
    seq![
        path_descend(home, "scoop"@),
        path_descend(home, "anaconda3"@),
        path_descend(home, "miniconda3"@),
        path_descend(home, "miniforge3"@),
        path_descend(local, "Programs"@),
        path_descend(home, "OneDrive"@),
        path_descend(roaming, "nvm"@),
        path_descend(roaming, "fnm"@),
        path_descend(local, "Volta"@),
        path_descend(local, "mise"@),
    ]
}

/// The roots that belong to installers and sync engines.
pub fn installer_roots(home: &FsPath, env: &WindowsEnv) -> (r: Vec<FsPath>)
    ensures
        views(r@) == guarded_roots(home@, env@),
{
    let local = local_app_data(home, env);
    let roaming = roaming_app_data(home, env);
    let r: Vec<FsPath> = vec![
        home.descend("scoop"),
        home.descend("anaconda3"),
        home.descend("miniconda3"),
        home.descend("miniforge3"),
        local.descend("Programs"),
        // Every file in here may be a placeholder, and reading one downloads
        // the file it stands for.
        home.descend("OneDrive"),
        roaming.descend("nvm"),
        roaming.descend("fnm"),
        local.descend("Volta"),
        local.descend("mise"),
    ];
    assert(views(r@) =~= guarded_roots(home@, env@));
    r
}

/// The roots that the walk does not descend into.
pub open spec fn default_skips(home: PathView, env: WindowsEnvView) -> Seq<PathView> {
    fixed_skips(home, env) + software_roots(home, env) + version_manager_roots(home)
        + guarded_roots(home, env)
}

pub fn skip_paths(home: &FsPath, env: &WindowsEnv) -> (r: Vec<FsPath>)
    ensures
        views(r@) == default_skips(home@, env@),
{
    let local = local_app_data(home, env);
    let drive = system_drive(env);
    let mut skip: Vec<FsPath> = vec![
        // Enumerated as fixed targets instead: walking them here would both
        // double-count and cost minutes.
        windows_dir(env),
        drive.descend("$Recycle.Bin"),
        drive.descend("Windows.old"),
        drive.descend("$WinREAgent"),
        // Permanently access-denied, one error per entry if walked.
        drive.descend("System Volume Information"),
        drive.descend("$GetCurrent"),
        env.temp.clone(),
        local.descend("Temp"),
        // Zero-byte reparse stubs pointing at Store app installs.
        local.descend("Microsoft/WindowsApps"),
        // Store app data. LocalCache here is documented as persistent storage
        // the app manages itself, not the OS-purgeable TemporaryFolder beside
        // it, and Store apps keep real downloaded content in it.
        local.descend("Packages"),
    ];
    assert(views(skip@) =~= fixed_skips(home@, env@));
    extend_paths(&mut skip, installed_software_roots(home, env));
    extend_paths(&mut skip, runtime_roots(home));
    extend_paths(&mut skip, installer_roots(home, env));
    skip
}

// ---------------------------------------------------------------------------
// Fixed targets
// ---------------------------------------------------------------------------

/// The fixed places to look at.
pub open spec fn named_candidates(home: PathView, env: WindowsEnvView) -> Seq<TargetView> {
    let local = local_dir(home, env);
    let roaming = roaming_dir(home, env);
    let win = system_dir(env);
    let shared = shared_dir(env);
    let drive = system_drive_dir(env);
    seq![
        (env.temp, Category::WindowsTemp),
        (path_descend(win, "Temp"@), Category::WindowsTemp),
        (path_descend(win, "SoftwareDistribution/Download"@), Category::WindowsUpdate),
        (path_descend(win, "SoftwareDistribution/DeliveryOptimization"@), Category::WindowsUpdate),
        (path_descend(shared, "Microsoft/Network/Downloader"@), Category::WindowsUpdate),
        (path_descend(drive, "Windows.old"@), Category::WindowsOld),
        (path_descend(drive, "$WinREAgent"@), Category::WindowsOld),
        (path_descend(drive, "$Windows.~BT"@), Category::WindowsOld),
        (path_descend(drive, "$Windows.~WS"@), Category::WindowsOld),
        (path_descend(drive, "$SysReset"@), Category::WindowsOld),
        (path_descend(local, "CrashDumps"@), Category::CrashDumps),
        (path_descend(win, "Minidump"@), Category::CrashDumps),
        (path_descend(win, "LiveKernelReports"@), Category::CrashDumps),
        (path_descend(local, "Microsoft/Windows/WER"@), Category::CrashDumps),
        (path_descend(shared, "Microsoft/Windows/WER"@), Category::CrashDumps),
        (path_descend(local, "Microsoft/Windows/INetCache"@), Category::WindowsCaches),
        (path_descend(local, "Microsoft/Windows/WebCache"@), Category::WindowsCaches),
        (path_descend(local, "D3DSCache"@), Category::WindowsCaches),
        (path_descend(local, "NVIDIA/DXCache"@), Category::WindowsCaches),
        (path_descend(local, "NVIDIA/GLCache"@), Category::WindowsCaches),
        (path_descend(local, "AMD/DxCache"@), Category::WindowsCaches),
        (path_descend(local, "Microsoft/Windows/Explorer"@), Category::ThumbnailCache),
        (path_descend(shared, "Package Cache"@), Category::InstallerCache),
        (path_descend(win, "Installer"@), Category::InstallerCache),
        (path_descend(local, "npm-cache"@), Category::NpmCache),
        (path_descend(home, ".npm/_cacache"@), Category::NpmCache),
        (path_descend(local, "Yarn/Cache"@), Category::YarnPnpmCache),
        (path_descend(home, ".yarn/berry/cache"@), Category::YarnPnpmCache),
        (path_descend(local, "pnpm-store"@), Category::YarnPnpmCache),
        (path_descend(local, "pnpm/store"@), Category::YarnPnpmCache),
        (path_descend(local, "pip/Cache"@), Category::PipCache),
        (path_descend(local, "uv/cache"@), Category::UvCache),
        (path_descend(home, ".nuget/packages"@), Category::NugetCache),
        (path_descend(local, "NuGet/v3-cache"@), Category::NugetCache),
        (path_descend(home, ".cargo/registry"@), Category::CargoRegistry),
        (path_descend(home, ".cargo/git"@), Category::CargoRegistry),
        (path_descend(home, ".gradle/caches"@), Category::GradleCache),
        (path_descend(home, ".m2/repository"@), Category::MavenCache),
        (path_descend(home, "go/pkg/mod"@), Category::GoModCache),
        (path_descend(local, "JetBrains"@), Category::IdeCache),
        (path_descend(roaming, "Code/Cache"@), Category::IdeCache),
        (path_descend(roaming, "Code/CachedData"@), Category::IdeCache),
        (path_descend(roaming, "Code/logs"@), Category::IdeCache),
        (path_descend(local, "Microsoft/vscode-cpptools"@), Category::IdeCache),
        (path_descend(local, "Docker/wsl"@), Category::DockerData),
        (path_descend(local, "wsl"@), Category::DockerData),
        (path_descend(local, "Android/Sdk"@), Category::AndroidSdk),
        (path_descend(home, ".android/avd"@), Category::AndroidEmulator),
        (path_descend(local, "Google/DriveFS"@), Category::CloudMirror),
        (path_descend(local, "Microsoft/OneDrive/settings"@), Category::CloudMirror),
        (path_descend(local, "Dropbox"@), Category::CloudMirror),
        (path_descend(local, "Box"@), Category::CloudMirror),
        (path_descend(local, "Apple Inc"@), Category::CloudMirror),
        (path_descend(local, "Microsoft/Office"@), Category::ExpensiveCache),
    ]
}

fn system_candidates(home: &FsPath, env: &WindowsEnv) -> (r: Vec<Target>)
    ensures
        views(r@) == named_candidates(home@, env@),
{
    let local = local_app_data(home, env);
    let roaming = roaming_app_data(home, env);
    let win = windows_dir(env);
    let shared = program_data(env);
    let drive = system_drive(env);
    let r: Vec<Target> = vec![
        // Temp. %TEMP% is what the running session actually writes to.
        (env.temp.clone(), Category::WindowsTemp),
        (win.descend("Temp"), Category::WindowsTemp),
        // Servicing leftovers. Windows.old only backs the 10-day rollback
        // window and is dead weight once that has passed.
        (win.descend("SoftwareDistribution/Download"), Category::WindowsUpdate),
        (win.descend("SoftwareDistribution/DeliveryOptimization"), Category::WindowsUpdate),
        (shared.descend("Microsoft/Network/Downloader"), Category::WindowsUpdate),
        (drive.descend("Windows.old"), Category::WindowsOld),
        (drive.descend("$WinREAgent"), Category::WindowsOld),
        (drive.descend("$Windows.~BT"), Category::WindowsOld),
        (drive.descend("$Windows.~WS"), Category::WindowsOld),
        (drive.descend("$SysReset"), Category::WindowsOld),
        // Crash dumps and error reports.
        (local.descend("CrashDumps"), Category::CrashDumps),
        (win.descend("Minidump"), Category::CrashDumps),
        (win.descend("LiveKernelReports"), Category::CrashDumps),
        (local.descend("Microsoft/Windows/WER"), Category::CrashDumps),
        (shared.descend("Microsoft/Windows/WER"), Category::CrashDumps),
        // Shell, shader and web caches.
        (local.descend("Microsoft/Windows/INetCache"), Category::WindowsCaches),
        (local.descend("Microsoft/Windows/WebCache"), Category::WindowsCaches),
        (local.descend("D3DSCache"), Category::WindowsCaches),
        (local.descend("NVIDIA/DXCache"), Category::WindowsCaches),
        (local.descend("NVIDIA/GLCache"), Category::WindowsCaches),
        (local.descend("AMD/DxCache"), Category::WindowsCaches),
        (local.descend("Microsoft/Windows/Explorer"), Category::ThumbnailCache),
        // Installer payloads: still needed to repair or uninstall, so these are
        // measured but never marked safe.
        (shared.descend("Package Cache"), Category::InstallerCache),
        (win.descend("Installer"), Category::InstallerCache),
        // Language and build tool caches.
        (local.descend("npm-cache"), Category::NpmCache),
        (home.descend(".npm/_cacache"), Category::NpmCache),
        (local.descend("Yarn/Cache"), Category::YarnPnpmCache),
        (home.descend(".yarn/berry/cache"), Category::YarnPnpmCache),
        (local.descend("pnpm-store"), Category::YarnPnpmCache),
        (local.descend("pnpm/store"), Category::YarnPnpmCache),
        (local.descend("pip/Cache"), Category::PipCache),
        (local.descend("uv/cache"), Category::UvCache),
        (home.descend(".nuget/packages"), Category::NugetCache),
        (local.descend("NuGet/v3-cache"), Category::NugetCache),
        (home.descend(".cargo/registry"), Category::CargoRegistry),
        (home.descend(".cargo/git"), Category::CargoRegistry),
        (home.descend(".gradle/caches"), Category::GradleCache),
        (home.descend(".m2/repository"), Category::MavenCache),
        (home.descend("go/pkg/mod"), Category::GoModCache),
        // IDE caches.
        (local.descend("JetBrains"), Category::IdeCache),
        (roaming.descend("Code/Cache"), Category::IdeCache),
        (roaming.descend("Code/CachedData"), Category::IdeCache),
        (roaming.descend("Code/logs"), Category::IdeCache),
        (local.descend("Microsoft/vscode-cpptools"), Category::IdeCache),
        // Large payloads that hold real state -- measured, never auto-deleted.
        (local.descend("Docker/wsl"), Category::DockerData),
        (local.descend("wsl"), Category::DockerData),
        (local.descend("Android/Sdk"), Category::AndroidSdk),
        (home.descend(".android/avd"), Category::AndroidEmulator),
        // Sync engines, claimed ahead of the Electron sweep so a Cache directory
        // found inside one is dropped as nested rather than deleted. Windows
        // has no equivalent of pluginkit, and the registry's sync-root list
        // misses the providers that ship their own virtual filesystem, so these
        // are named. DriveFS is the same content cache and metadata database
        // whose macOS twin cost a 340 GB re-download.
        (local.descend("Google/DriveFS"), Category::CloudMirror),
        (local.descend("Microsoft/OneDrive/settings"), Category::CloudMirror),
        (local.descend("Dropbox"), Category::CloudMirror),
        (local.descend("Box"), Category::CloudMirror),
        (local.descend("Apple Inc"), Category::CloudMirror),
        // Co-authoring state for open documents. Microsoft's own guidance is
        // that deleting these by hand breaks Office rather than freeing space.
        (local.descend("Microsoft/Office"), Category::ExpensiveCache),
    ];
    assert(views(r@) =~= named_candidates(home@, env@));
    r
}

pub const DRIVE_LETTERS: &'static str = "CDEFGHIJKLMNOPQRSTUVWXYZ";

/// The recycle bins of the drives. A: and B: are left out so a stray floppy
/// letter cannot spin up a drive.
pub open spec fn recycle_bins(letters: Seq<char>) -> Seq<TargetView> {
    Seq::new(
        letters.len(),
        |i: int|
            (path_descend(drive_root(seq![letters[i], ':']), "$Recycle.Bin"@), Category::RecycleBin),
    )
}

/// Puts the bins of the drives behind `out`. Every fixed drive keeps its own
/// recycle bin; only the system one is predictable, so the rest are probed.
fn push_recycle_bins(out: &mut Vec<Target>)
    ensures
        views(final(out)@) == views(old(out)@) + recycle_bins(DRIVE_LETTERS@),
{
    let letters = crate::text::chars_of(DRIVE_LETTERS);
    let ghost had = views(out@);
    let ghost bins = recycle_bins(letters@);
    for i in 0..letters.len()
        invariant
            bins == recycle_bins(letters@),
            views(out@) =~= had + bins.take(i as int),
    {
        let mut drive = String::new();
        drive.push(letters[i]);
        drive.push(':');
        assert(drive@ =~= seq![letters@[i as int], ':']);
        out.push((root_of(drive.as_str()).descend("$Recycle.Bin"), Category::RecycleBin));
    }
    assert(bins.take(bins.len() as int) =~= bins);
}

// ---------------------------------------------------------------------------
// Browsers
// ---------------------------------------------------------------------------

/// What a directory was seen to hold. `is_dir` of an entry counts a link to a
/// directory as one.
pub struct Listing {
    pub dir: FsPath,
    pub entries: Vec<Entry>,
}

#[verifier::ext_equal]
pub struct ListingView {
    pub dir: PathView,
    pub entries: Seq<EntryView>,
}

impl View for Listing {
    type V = ListingView;

    open spec fn view(&self) -> ListingView {
        ListingView { dir: self.dir@, entries: views(self.entries@) }
    }
}

/// What the first listing of `dir` shows, or nothing where it has none.
pub open spec fn listed(listings: Seq<ListingView>, dir: PathView) -> Option<Seq<EntryView>>
    decreases listings.len(),
{
    if listings.len() == 0 {
        None
    } else if same_path(listings[0].dir, dir) {
        Some(listings[0].entries)
    } else {
        listed(listings.drop_first(), dir)
    }
}

pub open spec fn entries_view(entries: Option<&Vec<Entry>>) -> Option<Seq<EntryView>> {
    match entries {
        Some(entries) => Some(views(entries@)),
        None => None,
    }
}

fn find_listing<'a>(listings: &'a Vec<Listing>, dir: &FsPath) -> (r: Option<&'a Vec<Entry>>)
    ensures
        entries_view(r) == listed(views(listings@), dir@),
{
    let ghost all = views(listings@);
    assert(all.skip(0) =~= all);
    for i in 0..listings.len()
        invariant
            all == views(listings@),
            listed(all, dir@) == listed(all.skip(i as int), dir@),
    {
        assert(all.skip(i as int).drop_first() =~= all.skip(i + 1));
        assert(all.skip(i as int)[0] == all[i as int]);
        if listings[i].dir.same(dir) {
            return Some(&listings[i].entries);
        }
    }
    None
}

/// The directory of a Chromium profile.
pub open spec fn is_profile(name: Seq<char>) -> bool {
    name == "Default"@ || name == "Guest Profile"@ || "Profile "@.is_prefix_of(name)
}

pub open spec fn profile_caches(profile: PathView) -> Seq<TargetView> {
    seq![
        (path_descend(profile, "Cache"@), Category::BrowserCache),
        (path_descend(profile, "Code Cache"@), Category::BrowserCache),
        (path_descend(profile, "GPUCache"@), Category::BrowserCache),
        (path_descend(profile, "DawnGraphiteCache"@), Category::BrowserCache),
        (path_descend(profile, "DawnWebGPUCache"@), Category::BrowserCache),
        (path_join(profile, "Service Worker/CacheStorage"@), Category::BrowserCache),
    ]
}

pub open spec fn caches_of_profiles(
    user_data: PathView,
    entries: Seq<EntryView>,
) -> Seq<TargetView>
    decreases entries.len(),
{
    if entries.len() == 0 {
        Seq::empty()
    } else {
        let front = caches_of_profiles(user_data, entries.drop_last());
        let e = entries.last();
        if e.is_dir && is_profile(part_text(e.name)) {
            front + profile_caches(user_data.child(e.name))
        } else {
            front
        }
    }
}

pub open spec fn shader_caches(user_data: PathView) -> Seq<TargetView> {
    seq![
        (path_descend(user_data, "ShaderCache"@), Category::BrowserCache),
        (path_descend(user_data, "GrShaderCache"@), Category::BrowserCache),
        (path_descend(user_data, "GraphiteDawnCache"@), Category::BrowserCache),
    ]
}

/// Where a Chromium browser may have caches, given what its data directory
/// holds; nowhere if that could not be read.
pub open spec fn chromium_candidates(
    user_data: PathView,
    entries: Option<Seq<EntryView>>,
) -> Seq<TargetView> {
    match entries {
        Some(entries) => caches_of_profiles(user_data, entries) + shader_caches(user_data),
        None => Seq::empty(),
    }
}

fn append_targets(out: &mut Vec<Target>, more: Vec<Target>)
    ensures
        views(final(out)@) == views(old(out)@) + views(more@),
{
    let ghost had = views(out@);
    let mut more = more;
    let ghost tail = views(more@);
    out.append(&mut more);
    assert(views(out@) =~= had + tail);
}

fn caches_in_profile(profile: &FsPath) -> (r: Vec<Target>)
    ensures
        views(r@) == profile_caches(profile@),
{
    let r: Vec<Target> = vec![
        (profile.descend("Cache"), Category::BrowserCache),
        (profile.descend("Code Cache"), Category::BrowserCache),
        (profile.descend("GPUCache"), Category::BrowserCache),
        (profile.descend("DawnGraphiteCache"), Category::BrowserCache),
        (profile.descend("DawnWebGPUCache"), Category::BrowserCache),
        (profile.join("Service Worker/CacheStorage"), Category::BrowserCache),
    ];
    assert(views(r@) =~= profile_caches(profile@));
    r
}

/// Chromium keeps its evictable caches per profile; the profile directory
/// itself holds history and cookies, so only the cache subdirectories go in.
pub fn chromium_caches(user_data: &FsPath, entries: Option<&Vec<Entry>>, out: &mut Vec<Target>)
    ensures
        views(final(out)@) == views(old(out)@) + chromium_candidates(
            user_data@,
            entries_view(entries),
        ),
{
    let entries = match entries {
        Some(entries) => entries,
        None => {
            assert(views(out@) + Seq::<TargetView>::empty() =~= views(out@));
            return;
        },
    };
    let ghost had = views(out@);
    let ghost all = views(entries@);
    assert(views(out@) =~= had + caches_of_profiles(user_data@, all.take(0)));
    for i in 0..entries.len()
        invariant
            all == views(entries@),
            views(out@) == had + caches_of_profiles(user_data@, all.take(i as int)),
    {
        assert(all.take(i + 1).drop_last() =~= all.take(i as int));
        let entry = &entries[i];
        let name = entry.name.text();
        let profile = text_is(&name, "Default") || text_is(&name, "Guest Profile") || starts_with(
            name.as_str(),
            "Profile ",
        );
        if entry.is_dir && profile {
            append_targets(out, caches_in_profile(&user_data.child(&entry.name)));
        }
        assert(views(out@) =~= had + caches_of_profiles(user_data@, all.take(i + 1)));
    }
    assert(all.take(all.len() as int) =~= all);
    // Shader caches sit beside the profiles rather than inside them.
    let shaders: Vec<Target> = vec![
        (user_data.descend("ShaderCache"), Category::BrowserCache),
        (user_data.descend("GrShaderCache"), Category::BrowserCache),
        (user_data.descend("GraphiteDawnCache"), Category::BrowserCache),
    ];
    assert(views(shaders@) =~= shader_caches(user_data@));
    append_targets(out, shaders);
    assert(views(out@) =~= had + chromium_candidates(user_data@, Some(all)));
}

/// Where Firefox may have caches, given its profiles.
pub open spec fn firefox_candidates(
    profiles: PathView,
    entries: Option<Seq<EntryView>>,
) -> Seq<TargetView> {
    match entries {
        Some(entries) => Seq::new(
            entries.len(),
            |i: int|
                (path_descend(profiles.child(entries[i].name), "cache2"@), Category::BrowserCache),
        ),
        None => Seq::empty(),
    }
}

pub fn firefox_caches(profiles: &FsPath, entries: Option<&Vec<Entry>>, out: &mut Vec<Target>)
    ensures
        views(final(out)@) == views(old(out)@) + firefox_candidates(
            profiles@,
            entries_view(entries),
        ),
{
    let entries = match entries {
        Some(entries) => entries,
        None => {
            assert(views(out@) + Seq::<TargetView>::empty() =~= views(out@));
            return;
        },
    };
    let ghost had = views(out@);
    let ghost want = firefox_candidates(profiles@, Some(views(entries@)));
    for i in 0..entries.len()
        invariant
            want == firefox_candidates(profiles@, Some(views(entries@))),
            views(out@) =~= had + want.take(i as int),
    {
        let cache = profiles.child(&entries[i].name).descend("cache2");
        out.push((cache, Category::BrowserCache));
    }
    assert(want.take(want.len() as int) =~= want);
}

/// The data directories of the Chromium browsers.
pub open spec fn browser_dirs(local: PathView) -> Seq<PathView> {
    seq![
        path_descend(local, "Microsoft/Edge/User Data"@),
        path_descend(local, "Google/Chrome/User Data"@),
        path_descend(local, "BraveSoftware/Brave-Browser/User Data"@),
        path_descend(local, "Vivaldi/User Data"@),
        path_descend(local, "Chromium/User Data"@),
        path_descend(local, "Opera Software/Opera Stable"@),
    ]
}

pub fn browser_data_dirs(home: &FsPath, env: &WindowsEnv) -> (r: Vec<FsPath>)
    ensures
        views(r@) == browser_dirs(local_dir(home@, env@)),
{
    let local = local_app_data(home, env);
    let r: Vec<FsPath> = vec![
        local.descend("Microsoft/Edge/User Data"),
        local.descend("Google/Chrome/User Data"),
        local.descend("BraveSoftware/Brave-Browser/User Data"),
        local.descend("Vivaldi/User Data"),
        local.descend("Chromium/User Data"),
        local.descend("Opera Software/Opera Stable"),
    ];
    assert(views(r@) =~= browser_dirs(local@));
    r
}

/// Where the profiles of Firefox are.
pub fn firefox_profiles(home: &FsPath, env: &WindowsEnv) -> (r: FsPath)
    ensures
        r@ == path_descend(local_dir(home@, env@), "Mozilla/Firefox/Profiles"@),
{
    local_app_data(home, env).descend("Mozilla/Firefox/Profiles")
}

pub open spec fn browsers_candidates(
    dirs: Seq<PathView>,
    listings: Seq<ListingView>,
) -> Seq<TargetView>
    decreases dirs.len(),
{
    if dirs.len() == 0 {
        Seq::empty()
    } else {
        browsers_candidates(dirs.drop_last(), listings) + chromium_candidates(
            dirs.last(),
            listed(listings, dirs.last()),
        )
    }
}

// ---------------------------------------------------------------------------
// All of it
// ---------------------------------------------------------------------------

/// Every place whose existence has to be looked up.
pub open spec fn candidates(
    home: PathView,
    env: WindowsEnvView,
    listings: Seq<ListingView>,
) -> Seq<TargetView> {
    let local = local_dir(home, env);
    let profiles = path_descend(local, "Mozilla/Firefox/Profiles"@);
    named_candidates(home, env) + recycle_bins(DRIVE_LETTERS@) + browsers_candidates(
        browser_dirs(local),
        listings,
    ) + firefox_candidates(profiles, listed(listings, profiles))
}

/// The places whose existence has to be looked up, given the listings of the
/// browsers' data directories that could be had.
pub fn target_candidates(home: &FsPath, env: &WindowsEnv, listings: &Vec<Listing>) -> (r: Vec<
    Target,
>)
    ensures
        views(r@) == candidates(home@, env@, views(listings@)),
{
    let mut out = system_candidates(home, env);
    push_recycle_bins(&mut out);
    let dirs = browser_data_dirs(home, env);
    let ghost had = views(out@);
    let ghost all = views(dirs@);
    assert(had + browsers_candidates(all.take(0), views(listings@)) =~= had);
    for i in 0..dirs.len()
        invariant
            all == views(dirs@),
            views(out@) == had + browsers_candidates(all.take(i as int), views(listings@)),
    {
        assert(all.take(i + 1).drop_last() =~= all.take(i as int));
        chromium_caches(&dirs[i], find_listing(listings, &dirs[i]), &mut out);
        assert(views(out@) =~= had + browsers_candidates(all.take(i + 1), views(listings@)));
    }
    assert(all.take(all.len() as int) =~= all);
    let profiles = firefox_profiles(home, env);
    firefox_caches(&profiles, find_listing(listings, &profiles), &mut out);
    out
}

/// Where apps keep their data, and their web caches in it.
pub fn web_cache_roots(home: &FsPath, env: &WindowsEnv) -> (r: Vec<FsPath>)
    ensures
        views(r@) == seq![roaming_dir(home@, env@), local_dir(home@, env@)],
{
    let r: Vec<FsPath> = vec![roaming_app_data(home, env), local_app_data(home, env)];
    assert(views(r@) =~= seq![roaming_dir(home@, env@), local_dir(home@, env@)]);
    r
}

/// Every fixed target of the machine: of the candidates those that are
/// `present`, and the web caches that none of them claims.
pub fn system_targets(
    home: &FsPath,
    env: &WindowsEnv,
    listings: &Vec<Listing>,
    present: &Vec<FsPath>,
    web_caches: Vec<Target>,
) -> (r: Vec<Target>)
    ensures
        views(r@) == with_unclaimed(
            seen_on_disk(candidates(home@, env@, views(listings@)), views(present@)),
            views(web_caches@),
        ),
{
    let mut out = keep_present(target_candidates(home, env, listings), present);
    // Every Electron app keeps a Chromium cache tree under one of these two,
    // and none of them is a browser the named sweep above knows about. Runs
    // last so a path an earlier rule claimed keeps its category.
    push_unclaimed(&mut out, web_caches);
    out
}

/// The first of the answers that says anything.
pub open spec fn told(answers: Seq<Option<Seq<char>>>) -> Option<Seq<char>>
    decreases answers.len(),
{
    if answers.len() == 0 {
        None
    } else {
        match answers[0] {
            Some(text) => if trimmed(text).len() > 0 {
                Some(trimmed(text))
            } else {
                told(answers.drop_first())
            },
            None => told(answers.drop_first()),
        }
    }
}

pub open spec fn answer_views(answers: Seq<Option<String>>) -> Seq<Option<Seq<char>>> {
    Seq::new(answers.len(), |i: int| text_view(answers[i]))
}

/// Where PowerShell said `$PROFILE` is, because OneDrive folder redirection
/// moves Documents and the path cannot be assumed. `answers` are what its
/// editions printed, where they answered.
pub fn told_profile(answers: &Vec<Option<String>>) -> (r: Option<String>)
    ensures
        text_view(r) == told(answer_views(answers@)),
{
    let ghost all = answer_views(answers@);
    assert(all.skip(0) =~= all);
    for i in 0..answers.len()
        invariant
            all == answer_views(answers@),
            told(all) == told(all.skip(i as int)),
    {
        assert(all.skip(i as int).drop_first() =~= all.skip(i + 1));
        assert(all.skip(i as int)[0] == all[i as int]);
        if let Some(text) = &answers[i] {
            let path = trim(text.as_str());
            if !path.as_str().is_empty() {
                return Some(path);
            }
        }
    }
    None
}

/// Where `$PROFILE` is: where PowerShell said, or in its default location.
pub fn powershell_profile(home: &FsPath, said: Option<FsPath>) -> (r: FsPath)
    ensures
        r@ == (match path_view(said) {
            Some(path) => path,
            None => path_descend(
                home@,
                "Documents/WindowsPowerShell/Microsoft.PowerShell_profile.ps1"@,
            ),
        }),
{
    match said {
        Some(path) => path,
        None => home.descend("Documents/WindowsPowerShell/Microsoft.PowerShell_profile.ps1"),
    }
}

/// Build caches that live outside any project directory.
pub open spec fn build_cache_candidates(home: PathView, env: WindowsEnvView) -> Seq<TargetView> {
    let own = (path_descend(home, ".build_caches/cargo"@), Category::RustTarget);
    match set_path(env.cargo_target_dir) {
        Some(shared) => seq![(shared, Category::RustTarget), own],
        None => seq![own],
    }
}

/// Build caches that may live outside any project directory.
pub fn build_cache_dirs(home: &FsPath, env: &WindowsEnv) -> (r: Vec<Target>)
    ensures
        views(r@) == build_cache_candidates(home@, env@),
{
    let mut out: Vec<Target> = Vec::new();
    if let Some(shared) = &env.cargo_target_dir {
        if !shared.is_empty() {
            out.push((shared.clone(), Category::RustTarget));
        }
    }
    out.push((home.descend(".build_caches/cargo"), Category::RustTarget));
    assert(views(out@) =~= build_cache_candidates(home@, env@));
    out
}

/// Build caches that live outside any project directory; `present` are those of
/// them that exist.
pub fn build_cache_targets(home: &FsPath, env: &WindowsEnv, present: &Vec<FsPath>) -> (r: Vec<
    Target,
>)
    ensures
        views(r@) == seen_on_disk(build_cache_candidates(home@, env@), views(present@)),
{
    keep_present(build_cache_dirs(home, env), present)
}

/// Files the OS reserves, with what actually reclaims them.
pub open spec fn reserved_files(env: WindowsEnvView) -> Seq<(PathView, Seq<char>)> {
    let drive = system_drive_dir(env);
    seq![
        (
            path_descend(drive, "hiberfil.sys"@),
            "disable hibernation to reclaim: powercfg /h off (elevated)"@,
        ),
        (
            path_descend(drive, "pagefile.sys"@),
            "resize under System > Advanced > Performance > Virtual memory"@,
        ),
        (path_descend(drive, "swapfile.sys"@), "goes away with the pagefile it backs"@),
    ]
}

pub open spec fn reserved_on_disk(
    files: Seq<(PathView, Seq<char>)>,
    present: Seq<PathView>,
) -> Seq<(PathView, Seq<char>)>
    decreases files.len(),
{
    if files.len() == 0 {
        Seq::empty()
    } else {
        let front = reserved_on_disk(files.drop_last(), present);
        if lists(present, files.last().0) {
            front.push(files.last())
        } else {
            front
        }
    }
}

/// The files that the OS may reserve.
pub fn reserved_candidates(env: &WindowsEnv) -> (r: Vec<(FsPath, &'static str)>)
    ensures
        views(r@) == reserved_files(env@),
{
    let drive = system_drive(env);
    let r: Vec<(FsPath, &'static str)> = vec![
        (
            drive.descend("hiberfil.sys"),
            "disable hibernation to reclaim: powercfg /h off (elevated)",
        ),
        (
            drive.descend("pagefile.sys"),
            "resize under System > Advanced > Performance > Virtual memory",
        ),
        (drive.descend("swapfile.sys"), "goes away with the pagefile it backs"),
    ];
    assert(views(r@) =~= reserved_files(env@));
    r
}

/// Files the OS reserves that cannot be deleted directly, reported for
/// information with the command that actually reclaims them.
pub fn reserved_system_files(env: &WindowsEnv, present: &Vec<FsPath>) -> (r: Vec<
    (FsPath, &'static str),
>)
    ensures
        views(r@) == reserved_on_disk(reserved_files(env@), views(present@)),
{
    let files = reserved_candidates(env);
    let ghost all = views(files@);
    let mut out: Vec<(FsPath, &'static str)> = Vec::new();
    assert(views(out@) =~= reserved_on_disk(all.take(0), views(present@)));
    for file in it: files
        invariant
            it.seq() == files@,
            all == views(files@),
            views(out@) == reserved_on_disk(all.take(it.index() as int), views(present@)),
    {
        assert(all.take(it.index() + 1).drop_last() =~= all.take(it.index() as int));
        if has_path(present, &file.0) {
            out.push(file);
        }
    }
    assert(all.take(all.len() as int) =~= all);
    out
}

// ---------------------------------------------------------------------------
// Laws
// ---------------------------------------------------------------------------

/// A sparse or compressed file counts what it occupies, any other its length,
/// and a failed question counts as none asked.
pub proof fn a_hole_is_not_counted(meta: Metadata, size: CompressedSize)
    requires
        meta.compressed == Some(size),
    ensures
        is_packed(meta) && size.error == 0 ==> allocated(meta) == size.high * 0x1_0000_0000
            + size.low,
        !is_packed(meta) ==> allocated(meta) == meta.len,
        size.low == INVALID_FILE_SIZE && size.error != 0 ==> allocated(meta) == meta.len,
{
}

/// Nothing that was installed is walked, nothing that OneDrive mounts, and
/// nothing of the data of Store apps.
pub proof fn installed_software_and_store_data_are_skipped(
    home: PathView,
    env: WindowsEnvView,
    path: PathView,
)
    requires
        under_any(path, software_roots(home, env)) || under_any(
            path,
            version_manager_roots(home),
        ) || under_any(path, guarded_roots(home, env)) || is_inside(
            path,
            path_descend(local_dir(home, env), "Packages"@),
        ),
    ensures
        under_any(path, default_skips(home, env)),
{
    let fixed = fixed_skips(home, env);
    let roots = software_roots(home, env);
    let runtimes = version_manager_roots(home);
    let guarded = guarded_roots(home, env);
    let all = default_skips(home, env);
    if under_any(path, roots) {
        let i = choose|i: int| 0 <= i < roots.len() && is_inside(path, #[trigger] roots[i]);
        assert(all[fixed.len() + i] == roots[i]);
    } else if under_any(path, runtimes) {
        let i = choose|i: int| 0 <= i < runtimes.len() && is_inside(path, #[trigger] runtimes[i]);
        assert(all[fixed.len() + roots.len() + i] == runtimes[i]);
    } else if under_any(path, guarded) {
        let i = choose|i: int| 0 <= i < guarded.len() && is_inside(path, #[trigger] guarded[i]);
        assert(all[fixed.len() + roots.len() + runtimes.len() + i] == guarded[i]);
    } else {
        assert(all[9] == fixed[9]);
    }
}

/// A place named by a rule of its own keeps the category of that rule: the
/// sweep of web caches neither changes it nor lists it again under another.
pub proof fn a_named_place_keeps_its_category(
    home: PathView,
    env: WindowsEnvView,
    listings: Seq<ListingView>,
    present: Seq<PathView>,
    web_caches: Seq<TargetView>,
)
    ensures
        seen_on_disk(candidates(home, env, listings), present).is_prefix_of(
            with_unclaimed(
                seen_on_disk(candidates(home, env, listings), present),
                web_caches,
            ),
        ),
{
    a_claim_stands(seen_on_disk(candidates(home, env, listings), present), web_caches);
}

/// Where a variable of the environment is unset or empty, a directory is in its
/// usual place; otherwise it is where the variable says.
pub proof fn directories_come_from_the_environment(home: PathView, env: WindowsEnvView)
    ensures
        env.local_app_data matches Some(p) && p.steps.len() > 0 ==> local_dir(home, env)
            == env.local_app_data->0,
        env.local_app_data is None || env.local_app_data->0.steps.len() == 0 ==> local_dir(home, env)
            == path_descend(home, "AppData/Local"@),
        env.app_data matches Some(p) && p.steps.len() > 0 ==> roaming_dir(home, env)
            == env.app_data->0,
        env.app_data is None || env.app_data->0.steps.len() == 0 ==> roaming_dir(home, env)
            == path_descend(home, "AppData/Roaming"@),
        env.system_root matches Some(p) && p.steps.len() > 0 ==> system_dir(env)
            == env.system_root->0,
        env.system_root is None || env.system_root->0.steps.len() == 0 ==> system_dir(env)
            == path_descend(root_path("C:"@ + "\\"@, '\\'), "Windows"@),
        env.program_data matches Some(p) && p.steps.len() > 0 ==> shared_dir(env)
            == env.program_data->0,
        env.program_data is None || env.program_data->0.steps.len() == 0 ==> shared_dir(env)
            == path_descend(root_path("C:"@ + "\\"@, '\\'), "ProgramData"@),
        env.system_drive matches Some(letter) ==> system_drive_dir(env) == root_path(
            env.system_drive->0 + "\\"@,
            '\\',
        ),
        env.system_drive is None ==> system_drive_dir(env) == root_path("C:"@ + "\\"@, '\\'),
{
}

/// The recycle bin of a drive.
pub open spec fn bin_of_drive(letter: char) -> PathView {
    path_descend(drive_root(seq![letter, ':']), "$Recycle.Bin"@)
}

/// The targets of a machine.
pub open spec fn all_targets(
    home: PathView,
    env: WindowsEnvView,
    listings: Seq<ListingView>,
    present: Seq<PathView>,
    web_caches: Seq<TargetView>,
) -> Seq<TargetView> {
    with_unclaimed(seen_on_disk(candidates(home, env, listings), present), web_caches)
}

proof fn lemma_candidate_found(
    home: PathView,
    env: WindowsEnvView,
    listings: Seq<ListingView>,
    present: Seq<PathView>,
    web_caches: Seq<TargetView>,
    t: TargetView,
)
    requires
        candidates(home, env, listings).contains(t),
        present.contains(t.0),
    ensures
        seen_on_disk(candidates(home, env, listings), present).contains(t),
        all_targets(home, env, listings, present, web_caches).contains(t),
{
    let list = candidates(home, env, listings);
    let named = seen_on_disk(list, present);
    let all = all_targets(home, env, listings, present, web_caches);
    let n = choose|n: int| 0 <= n < present.len() && present[n] == t.0;
    assert(present[n].parts() == t.0.parts());
    what_was_seen_is_kept(list, present, t);
    let k = choose|k: int| 0 <= k < named.len() && named[k] == t;
    a_claim_stands(named, web_caches);
    assert(all.subrange(0, named.len() as int)[k] == named[k]);
    assert(all[k] == t);
}

/// Every fixed place that exists is reported, under the category that it
/// belongs in.
pub proof fn fixed_places_are_reported(
    home: PathView,
    env: WindowsEnvView,
    listings: Seq<ListingView>,
    present: Seq<PathView>,
    web_caches: Seq<TargetView>,
)
    ensures
        ({
            let local = local_dir(home, env);
            let roaming = roaming_dir(home, env);
            let win = system_dir(env);
            let shared = shared_dir(env);
            let drive = system_drive_dir(env);
            let all = all_targets(home, env, listings, present, web_caches);
            &&& present.contains(env.temp) ==> all.contains((env.temp, Category::WindowsTemp))
            &&& present.contains(path_descend(win, "Temp"@)) ==> all.contains(
                (path_descend(win, "Temp"@), Category::WindowsTemp),
            )
            &&& present.contains(path_descend(win, "SoftwareDistribution/Download"@)) ==> all.contains(
                (path_descend(win, "SoftwareDistribution/Download"@), Category::WindowsUpdate),
            )
            &&& present.contains(path_descend(win, "SoftwareDistribution/DeliveryOptimization"@)) ==> all.contains(
                (path_descend(win, "SoftwareDistribution/DeliveryOptimization"@), Category::WindowsUpdate),
            )
            &&& present.contains(path_descend(shared, "Microsoft/Network/Downloader"@)) ==> all.contains(
                (path_descend(shared, "Microsoft/Network/Downloader"@), Category::WindowsUpdate),
            )
            &&& present.contains(path_descend(drive, "Windows.old"@)) ==> all.contains(
                (path_descend(drive, "Windows.old"@), Category::WindowsOld),
            )
            &&& present.contains(path_descend(drive, "$WinREAgent"@)) ==> all.contains(
                (path_descend(drive, "$WinREAgent"@), Category::WindowsOld),
            )
            &&& present.contains(path_descend(drive, "$Windows.~BT"@)) ==> all.contains(
                (path_descend(drive, "$Windows.~BT"@), Category::WindowsOld),
            )
            &&& present.contains(path_descend(drive, "$Windows.~WS"@)) ==> all.contains(
                (path_descend(drive, "$Windows.~WS"@), Category::WindowsOld),
            )
            &&& present.contains(path_descend(drive, "$SysReset"@)) ==> all.contains(
                (path_descend(drive, "$SysReset"@), Category::WindowsOld),
            )
            &&& present.contains(path_descend(local, "CrashDumps"@)) ==> all.contains(
                (path_descend(local, "CrashDumps"@), Category::CrashDumps),
            )
            &&& present.contains(path_descend(win, "Minidump"@)) ==> all.contains(
                (path_descend(win, "Minidump"@), Category::CrashDumps),
            )
            &&& present.contains(path_descend(win, "LiveKernelReports"@)) ==> all.contains(
                (path_descend(win, "LiveKernelReports"@), Category::CrashDumps),
            )
            &&& present.contains(path_descend(local, "Microsoft/Windows/WER"@)) ==> all.contains(
                (path_descend(local, "Microsoft/Windows/WER"@), Category::CrashDumps),
            )
            &&& present.contains(path_descend(shared, "Microsoft/Windows/WER"@)) ==> all.contains(
                (path_descend(shared, "Microsoft/Windows/WER"@), Category::CrashDumps),
            )
            &&& present.contains(path_descend(local, "Microsoft/Windows/INetCache"@)) ==> all.contains(
                (path_descend(local, "Microsoft/Windows/INetCache"@), Category::WindowsCaches),
            )
            &&& present.contains(path_descend(local, "Microsoft/Windows/WebCache"@)) ==> all.contains(
                (path_descend(local, "Microsoft/Windows/WebCache"@), Category::WindowsCaches),
            )
            &&& present.contains(path_descend(local, "D3DSCache"@)) ==> all.contains(
                (path_descend(local, "D3DSCache"@), Category::WindowsCaches),
            )
            &&& present.contains(path_descend(local, "NVIDIA/DXCache"@)) ==> all.contains(
                (path_descend(local, "NVIDIA/DXCache"@), Category::WindowsCaches),
            )
            &&& present.contains(path_descend(local, "NVIDIA/GLCache"@)) ==> all.contains(
                (path_descend(local, "NVIDIA/GLCache"@), Category::WindowsCaches),
            )
            &&& present.contains(path_descend(local, "AMD/DxCache"@)) ==> all.contains(
                (path_descend(local, "AMD/DxCache"@), Category::WindowsCaches),
            )
            &&& present.contains(path_descend(local, "Microsoft/Windows/Explorer"@)) ==> all.contains(
                (path_descend(local, "Microsoft/Windows/Explorer"@), Category::ThumbnailCache),
            )
            &&& present.contains(path_descend(shared, "Package Cache"@)) ==> all.contains(
                (path_descend(shared, "Package Cache"@), Category::InstallerCache),
            )
            &&& present.contains(path_descend(win, "Installer"@)) ==> all.contains(
                (path_descend(win, "Installer"@), Category::InstallerCache),
            )
            &&& present.contains(path_descend(local, "npm-cache"@)) ==> all.contains(
                (path_descend(local, "npm-cache"@), Category::NpmCache),
            )
            &&& present.contains(path_descend(home, ".npm/_cacache"@)) ==> all.contains(
                (path_descend(home, ".npm/_cacache"@), Category::NpmCache),
            )
            &&& present.contains(path_descend(local, "Yarn/Cache"@)) ==> all.contains(
                (path_descend(local, "Yarn/Cache"@), Category::YarnPnpmCache),
            )
            &&& present.contains(path_descend(home, ".yarn/berry/cache"@)) ==> all.contains(
                (path_descend(home, ".yarn/berry/cache"@), Category::YarnPnpmCache),
            )
            &&& present.contains(path_descend(local, "pnpm-store"@)) ==> all.contains(
                (path_descend(local, "pnpm-store"@), Category::YarnPnpmCache),
            )
            &&& present.contains(path_descend(local, "pnpm/store"@)) ==> all.contains(
                (path_descend(local, "pnpm/store"@), Category::YarnPnpmCache),
            )
            &&& present.contains(path_descend(local, "pip/Cache"@)) ==> all.contains(
                (path_descend(local, "pip/Cache"@), Category::PipCache),
            )
            &&& present.contains(path_descend(local, "uv/cache"@)) ==> all.contains(
                (path_descend(local, "uv/cache"@), Category::UvCache),
            )
            &&& present.contains(path_descend(home, ".nuget/packages"@)) ==> all.contains(
                (path_descend(home, ".nuget/packages"@), Category::NugetCache),
            )
            &&& present.contains(path_descend(local, "NuGet/v3-cache"@)) ==> all.contains(
                (path_descend(local, "NuGet/v3-cache"@), Category::NugetCache),
            )
            &&& present.contains(path_descend(home, ".cargo/registry"@)) ==> all.contains(
                (path_descend(home, ".cargo/registry"@), Category::CargoRegistry),
            )
            &&& present.contains(path_descend(home, ".cargo/git"@)) ==> all.contains(
                (path_descend(home, ".cargo/git"@), Category::CargoRegistry),
            )
            &&& present.contains(path_descend(home, ".gradle/caches"@)) ==> all.contains(
                (path_descend(home, ".gradle/caches"@), Category::GradleCache),
            )
            &&& present.contains(path_descend(home, ".m2/repository"@)) ==> all.contains(
                (path_descend(home, ".m2/repository"@), Category::MavenCache),
            )
            &&& present.contains(path_descend(home, "go/pkg/mod"@)) ==> all.contains(
                (path_descend(home, "go/pkg/mod"@), Category::GoModCache),
            )
            &&& present.contains(path_descend(local, "JetBrains"@)) ==> all.contains(
                (path_descend(local, "JetBrains"@), Category::IdeCache),
            )
            &&& present.contains(path_descend(roaming, "Code/Cache"@)) ==> all.contains(
                (path_descend(roaming, "Code/Cache"@), Category::IdeCache),
            )
            &&& present.contains(path_descend(roaming, "Code/CachedData"@)) ==> all.contains(
                (path_descend(roaming, "Code/CachedData"@), Category::IdeCache),
            )
            &&& present.contains(path_descend(roaming, "Code/logs"@)) ==> all.contains(
                (path_descend(roaming, "Code/logs"@), Category::IdeCache),
            )
            &&& present.contains(path_descend(local, "Microsoft/vscode-cpptools"@)) ==> all.contains(
                (path_descend(local, "Microsoft/vscode-cpptools"@), Category::IdeCache),
            )
            &&& present.contains(path_descend(local, "Docker/wsl"@)) ==> all.contains(
                (path_descend(local, "Docker/wsl"@), Category::DockerData),
            )
            &&& present.contains(path_descend(local, "wsl"@)) ==> all.contains(
                (path_descend(local, "wsl"@), Category::DockerData),
            )
            &&& present.contains(path_descend(local, "Android/Sdk"@)) ==> all.contains(
                (path_descend(local, "Android/Sdk"@), Category::AndroidSdk),
            )
            &&& present.contains(path_descend(home, ".android/avd"@)) ==> all.contains(
                (path_descend(home, ".android/avd"@), Category::AndroidEmulator),
            )
            &&& present.contains(path_descend(local, "Google/DriveFS"@)) ==> all.contains(
                (path_descend(local, "Google/DriveFS"@), Category::CloudMirror),
            )
            &&& present.contains(path_descend(local, "Microsoft/OneDrive/settings"@)) ==> all.contains(
                (path_descend(local, "Microsoft/OneDrive/settings"@), Category::CloudMirror),
            )
            &&& present.contains(path_descend(local, "Dropbox"@)) ==> all.contains(
                (path_descend(local, "Dropbox"@), Category::CloudMirror),
            )
            &&& present.contains(path_descend(local, "Box"@)) ==> all.contains(
                (path_descend(local, "Box"@), Category::CloudMirror),
            )
            &&& present.contains(path_descend(local, "Apple Inc"@)) ==> all.contains(
                (path_descend(local, "Apple Inc"@), Category::CloudMirror),
            )
            &&& present.contains(path_descend(local, "Microsoft/Office"@)) ==> all.contains(
                (path_descend(local, "Microsoft/Office"@), Category::ExpensiveCache),
            )
        }),
{
    let local = local_dir(home, env);
    let roaming = roaming_dir(home, env);
    let win = system_dir(env);
    let shared = shared_dir(env);
    let drive = system_drive_dir(env);
    let named = named_candidates(home, env);
    let list = candidates(home, env, listings);
    assert forall|k: int| 0 <= k < named.len() && present.contains((#[trigger] named[k]).0) implies
        all_targets(home, env, listings, present, web_caches).contains(named[k]) by {
        assert(list[k] == named[k]);
        assert(list.contains(list[k]));
        lemma_candidate_found(home, env, listings, present, web_caches, list[k]);
    }
    assert(named[0] == (env.temp, Category::WindowsTemp));
    assert(named[1] == (path_descend(win, "Temp"@), Category::WindowsTemp));
    assert(named[2] == (path_descend(win, "SoftwareDistribution/Download"@), Category::WindowsUpdate));
    assert(named[3] == (path_descend(win, "SoftwareDistribution/DeliveryOptimization"@), Category::WindowsUpdate));
    assert(named[4] == (path_descend(shared, "Microsoft/Network/Downloader"@), Category::WindowsUpdate));
    assert(named[5] == (path_descend(drive, "Windows.old"@), Category::WindowsOld));
    assert(named[6] == (path_descend(drive, "$WinREAgent"@), Category::WindowsOld));
    assert(named[7] == (path_descend(drive, "$Windows.~BT"@), Category::WindowsOld));
    assert(named[8] == (path_descend(drive, "$Windows.~WS"@), Category::WindowsOld));
    assert(named[9] == (path_descend(drive, "$SysReset"@), Category::WindowsOld));
    assert(named[10] == (path_descend(local, "CrashDumps"@), Category::CrashDumps));
    assert(named[11] == (path_descend(win, "Minidump"@), Category::CrashDumps));
    assert(named[12] == (path_descend(win, "LiveKernelReports"@), Category::CrashDumps));
    assert(named[13] == (path_descend(local, "Microsoft/Windows/WER"@), Category::CrashDumps));
    assert(named[14] == (path_descend(shared, "Microsoft/Windows/WER"@), Category::CrashDumps));
    assert(named[15] == (path_descend(local, "Microsoft/Windows/INetCache"@), Category::WindowsCaches));
    assert(named[16] == (path_descend(local, "Microsoft/Windows/WebCache"@), Category::WindowsCaches));
    assert(named[17] == (path_descend(local, "D3DSCache"@), Category::WindowsCaches));
    assert(named[18] == (path_descend(local, "NVIDIA/DXCache"@), Category::WindowsCaches));
    assert(named[19] == (path_descend(local, "NVIDIA/GLCache"@), Category::WindowsCaches));
    assert(named[20] == (path_descend(local, "AMD/DxCache"@), Category::WindowsCaches));
    assert(named[21] == (path_descend(local, "Microsoft/Windows/Explorer"@), Category::ThumbnailCache));
    assert(named[22] == (path_descend(shared, "Package Cache"@), Category::InstallerCache));
    assert(named[23] == (path_descend(win, "Installer"@), Category::InstallerCache));
    assert(named[24] == (path_descend(local, "npm-cache"@), Category::NpmCache));
    assert(named[25] == (path_descend(home, ".npm/_cacache"@), Category::NpmCache));
    assert(named[26] == (path_descend(local, "Yarn/Cache"@), Category::YarnPnpmCache));
    assert(named[27] == (path_descend(home, ".yarn/berry/cache"@), Category::YarnPnpmCache));
    assert(named[28] == (path_descend(local, "pnpm-store"@), Category::YarnPnpmCache));
    assert(named[29] == (path_descend(local, "pnpm/store"@), Category::YarnPnpmCache));
    assert(named[30] == (path_descend(local, "pip/Cache"@), Category::PipCache));
    assert(named[31] == (path_descend(local, "uv/cache"@), Category::UvCache));
    assert(named[32] == (path_descend(home, ".nuget/packages"@), Category::NugetCache));
    assert(named[33] == (path_descend(local, "NuGet/v3-cache"@), Category::NugetCache));
    assert(named[34] == (path_descend(home, ".cargo/registry"@), Category::CargoRegistry));
    assert(named[35] == (path_descend(home, ".cargo/git"@), Category::CargoRegistry));
    assert(named[36] == (path_descend(home, ".gradle/caches"@), Category::GradleCache));
    assert(named[37] == (path_descend(home, ".m2/repository"@), Category::MavenCache));
    assert(named[38] == (path_descend(home, "go/pkg/mod"@), Category::GoModCache));
    assert(named[39] == (path_descend(local, "JetBrains"@), Category::IdeCache));
    assert(named[40] == (path_descend(roaming, "Code/Cache"@), Category::IdeCache));
    assert(named[41] == (path_descend(roaming, "Code/CachedData"@), Category::IdeCache));
    assert(named[42] == (path_descend(roaming, "Code/logs"@), Category::IdeCache));
    assert(named[43] == (path_descend(local, "Microsoft/vscode-cpptools"@), Category::IdeCache));
    assert(named[44] == (path_descend(local, "Docker/wsl"@), Category::DockerData));
    assert(named[45] == (path_descend(local, "wsl"@), Category::DockerData));
    assert(named[46] == (path_descend(local, "Android/Sdk"@), Category::AndroidSdk));
    assert(named[47] == (path_descend(home, ".android/avd"@), Category::AndroidEmulator));
    assert(named[48] == (path_descend(local, "Google/DriveFS"@), Category::CloudMirror));
    assert(named[49] == (path_descend(local, "Microsoft/OneDrive/settings"@), Category::CloudMirror));
    assert(named[50] == (path_descend(local, "Dropbox"@), Category::CloudMirror));
    assert(named[51] == (path_descend(local, "Box"@), Category::CloudMirror));
    assert(named[52] == (path_descend(local, "Apple Inc"@), Category::CloudMirror));
    assert(named[53] == (path_descend(local, "Microsoft/Office"@), Category::ExpensiveCache));
}

proof fn lemma_origin(
    home: PathView,
    env: WindowsEnvView,
    listings: Seq<ListingView>,
    present: Seq<PathView>,
    web_caches: Seq<TargetView>,
    i: int,
)
    requires
        0 <= i < all_targets(home, env, listings, present, web_caches).len(),
    ensures
        ({
            let t = all_targets(home, env, listings, present, web_caches)[i];
            let list = candidates(home, env, listings);
            ||| list.contains(t)
            ||| web_caches.contains(t) && !claims(seen_on_disk(list, present), t.0)
        }),
{
    let all = all_targets(home, env, listings, present, web_caches);
    let list = candidates(home, env, listings);
    let named = seen_on_disk(list, present);
    a_claim_stands(named, web_caches);
    if i < named.len() {
        assert(all.subrange(0, named.len() as int)[i] == named[i]);
        assert(named.contains(named[i]));
        what_was_seen_is_kept(list, present, named[i]);
    }
}

/// No fixed place is reported but these and the bins of the drives; whatever else
/// is reported is a cache of a browser or was found by the sweep of web caches.
pub proof fn nothing_else_is_a_fixed_place(
    home: PathView,
    env: WindowsEnvView,
    listings: Seq<ListingView>,
    present: Seq<PathView>,
    web_caches: Seq<TargetView>,
    i: int,
)
    requires
        0 <= i < all_targets(home, env, listings, present, web_caches).len(),
    ensures
        ({
            let local = local_dir(home, env);
            let roaming = roaming_dir(home, env);
            let win = system_dir(env);
            let shared = shared_dir(env);
            let drive = system_drive_dir(env);
            let t = all_targets(home, env, listings, present, web_caches)[i];
            ||| t == (env.temp, Category::WindowsTemp)
            ||| t == (path_descend(win, "Temp"@), Category::WindowsTemp)
            ||| t == (path_descend(win, "SoftwareDistribution/Download"@), Category::WindowsUpdate)
            ||| t == (path_descend(win, "SoftwareDistribution/DeliveryOptimization"@), Category::WindowsUpdate)
            ||| t == (path_descend(shared, "Microsoft/Network/Downloader"@), Category::WindowsUpdate)
            ||| t == (path_descend(drive, "Windows.old"@), Category::WindowsOld)
            ||| t == (path_descend(drive, "$WinREAgent"@), Category::WindowsOld)
            ||| t == (path_descend(drive, "$Windows.~BT"@), Category::WindowsOld)
            ||| t == (path_descend(drive, "$Windows.~WS"@), Category::WindowsOld)
            ||| t == (path_descend(drive, "$SysReset"@), Category::WindowsOld)
            ||| t == (path_descend(local, "CrashDumps"@), Category::CrashDumps)
            ||| t == (path_descend(win, "Minidump"@), Category::CrashDumps)
            ||| t == (path_descend(win, "LiveKernelReports"@), Category::CrashDumps)
            ||| t == (path_descend(local, "Microsoft/Windows/WER"@), Category::CrashDumps)
            ||| t == (path_descend(shared, "Microsoft/Windows/WER"@), Category::CrashDumps)
            ||| t == (path_descend(local, "Microsoft/Windows/INetCache"@), Category::WindowsCaches)
            ||| t == (path_descend(local, "Microsoft/Windows/WebCache"@), Category::WindowsCaches)
            ||| t == (path_descend(local, "D3DSCache"@), Category::WindowsCaches)
            ||| t == (path_descend(local, "NVIDIA/DXCache"@), Category::WindowsCaches)
            ||| t == (path_descend(local, "NVIDIA/GLCache"@), Category::WindowsCaches)
            ||| t == (path_descend(local, "AMD/DxCache"@), Category::WindowsCaches)
            ||| t == (path_descend(local, "Microsoft/Windows/Explorer"@), Category::ThumbnailCache)
            ||| t == (path_descend(shared, "Package Cache"@), Category::InstallerCache)
            ||| t == (path_descend(win, "Installer"@), Category::InstallerCache)
            ||| t == (path_descend(local, "npm-cache"@), Category::NpmCache)
            ||| t == (path_descend(home, ".npm/_cacache"@), Category::NpmCache)
            ||| t == (path_descend(local, "Yarn/Cache"@), Category::YarnPnpmCache)
            ||| t == (path_descend(home, ".yarn/berry/cache"@), Category::YarnPnpmCache)
            ||| t == (path_descend(local, "pnpm-store"@), Category::YarnPnpmCache)
            ||| t == (path_descend(local, "pnpm/store"@), Category::YarnPnpmCache)
            ||| t == (path_descend(local, "pip/Cache"@), Category::PipCache)
            ||| t == (path_descend(local, "uv/cache"@), Category::UvCache)
            ||| t == (path_descend(home, ".nuget/packages"@), Category::NugetCache)
            ||| t == (path_descend(local, "NuGet/v3-cache"@), Category::NugetCache)
            ||| t == (path_descend(home, ".cargo/registry"@), Category::CargoRegistry)
            ||| t == (path_descend(home, ".cargo/git"@), Category::CargoRegistry)
            ||| t == (path_descend(home, ".gradle/caches"@), Category::GradleCache)
            ||| t == (path_descend(home, ".m2/repository"@), Category::MavenCache)
            ||| t == (path_descend(home, "go/pkg/mod"@), Category::GoModCache)
            ||| t == (path_descend(local, "JetBrains"@), Category::IdeCache)
            ||| t == (path_descend(roaming, "Code/Cache"@), Category::IdeCache)
            ||| t == (path_descend(roaming, "Code/CachedData"@), Category::IdeCache)
            ||| t == (path_descend(roaming, "Code/logs"@), Category::IdeCache)
            ||| t == (path_descend(local, "Microsoft/vscode-cpptools"@), Category::IdeCache)
            ||| t == (path_descend(local, "Docker/wsl"@), Category::DockerData)
            ||| t == (path_descend(local, "wsl"@), Category::DockerData)
            ||| t == (path_descend(local, "Android/Sdk"@), Category::AndroidSdk)
            ||| t == (path_descend(home, ".android/avd"@), Category::AndroidEmulator)
            ||| t == (path_descend(local, "Google/DriveFS"@), Category::CloudMirror)
            ||| t == (path_descend(local, "Microsoft/OneDrive/settings"@), Category::CloudMirror)
            ||| t == (path_descend(local, "Dropbox"@), Category::CloudMirror)
            ||| t == (path_descend(local, "Box"@), Category::CloudMirror)
            ||| t == (path_descend(local, "Apple Inc"@), Category::CloudMirror)
            ||| t == (path_descend(local, "Microsoft/Office"@), Category::ExpensiveCache)
            ||| exists|letter: char|
                'C' <= letter <= 'Z' && t == (#[trigger] bin_of_drive(letter), Category::RecycleBin)
            ||| t.1 == Category::BrowserCache
            ||| web_caches.contains(t)
        }),
{
    let t = all_targets(home, env, listings, present, web_caches)[i];
    lemma_origin(home, env, listings, present, web_caches, i);
    let list = candidates(home, env, listings);
    if list.contains(t) {
        let k = choose|k: int| 0 <= k < list.len() && list[k] == t;
        lemma_candidate_kind(home, env, listings, k);
    }
}

proof fn lemma_browsers_only(dirs: Seq<PathView>, listings: Seq<ListingView>, k: int)
    requires
        0 <= k < browsers_candidates(dirs, listings).len(),
    ensures
        browsers_candidates(dirs, listings)[k].1 == Category::BrowserCache,
        ends_as_swept(browsers_candidates(dirs, listings)[k].0.parts()),
    decreases dirs.len(),
{
    let front = browsers_candidates(dirs.drop_last(), listings);
    if k < front.len() {
        lemma_browsers_only(dirs.drop_last(), listings, k);
    } else {
        let dir = dirs.last();
        let entries = listed(listings, dir);
        let own = chromium_candidates(dir, entries);
        assert(browsers_candidates(dirs, listings)[k] == own[k - front.len()]);
        let profiles = caches_of_profiles(dir, entries->0);
        if k - front.len() < profiles.len() {
            lemma_profiles_only(dir, entries->0, k - front.len());
        } else {
            lemma_shader_ends(dir);
        }
    }
}

proof fn lemma_profiles_only(dir: PathView, entries: Seq<EntryView>, k: int)
    requires
        0 <= k < caches_of_profiles(dir, entries).len(),
    ensures
        caches_of_profiles(dir, entries)[k].1 == Category::BrowserCache,
        ends_as_swept(caches_of_profiles(dir, entries)[k].0.parts()),
    decreases entries.len(),
{
    let front = caches_of_profiles(dir, entries.drop_last());
    if k < front.len() {
        lemma_profiles_only(dir, entries.drop_last(), k);
    } else {
        lemma_profile_ends(dir.child(entries.last().name));
    }
}

/// The path ends as one of the places does that may be swept.
spec fn ends_as_swept(p: Parts) -> bool {
    ||| (tail_char(p, 0) == 'p')
    ||| (tail_char(p, 0) == 'd' && tail_char(p, 1) == 'a')
    ||| (tail_char(p, 0) == 'n')
    ||| (tail_char(p, 0) == 'r' && tail_char(p, 1) == 'e' && tail_char(p, 2) == 'd')
    ||| (tail_char(p, 0) == 's' && tail_char(p, 1) == 'p')
    ||| (tail_char(p, 0) == 's' && tail_char(p, 1) == 't')
    ||| (tail_char(p, 0) == 'R')
    ||| (tail_char(p, 0) == 'e' && tail_char(p, 1) == 'h' && tail_char(p, 2) == 'c' && tail_char(p, 3) == 'a' && tail_char(p, 4) == 'C' && tail_char(p, 5) == 't')
    ||| (tail_char(p, 0) == 'e' && tail_char(p, 1) == 'h' && tail_char(p, 2) == 'c' && tail_char(p, 3) == 'a' && tail_char(p, 4) == 'C' && tail_char(p, 5) == 'b')
    ||| (tail_char(p, 0) == 'e' && tail_char(p, 1) == 'h' && tail_char(p, 2) == 'c' && tail_char(p, 3) == 'a' && tail_char(p, 4) == 'C' && tail_char(p, 5) == 'S')
    ||| (tail_char(p, 0) == 'e' && tail_char(p, 1) == 'h' && tail_char(p, 2) == 'c' && tail_char(p, 3) == 'a' && tail_char(p, 4) == 'C' && tail_char(p, 5) == 'X')
    ||| (tail_char(p, 0) == 'e' && tail_char(p, 1) == 'h' && tail_char(p, 2) == 'c' && tail_char(p, 3) == 'a' && tail_char(p, 4) == 'C' && tail_char(p, 5) == 'L')
    ||| (tail_char(p, 0) == 'e' && tail_char(p, 1) == 'h' && tail_char(p, 2) == 'c' && tail_char(p, 3) == 'a' && tail_char(p, 4) == 'C' && tail_char(p, 5) == 'x')
    ||| (tail_char(p, 0) == 'r' && tail_char(p, 1) == 'e' && tail_char(p, 2) == 'r')
    ||| (tail_char(p, 0) == 'e' && tail_char(p, 1) == 'h' && tail_char(p, 2) == 'c' && tail_char(p, 3) == 'a' && tail_char(p, 4) == 'c')
    ||| (tail_char(p, 0) == 'e' && tail_char(p, 1) == 'h' && tail_char(p, 2) == 'c' && tail_char(p, 3) == 'a' && tail_char(p, 4) == 'C' && tail_char(p, 5) == '/')
    ||| (tail_char(p, 0) == 'e' && tail_char(p, 1) == 'r')
    ||| (tail_char(p, 0) == 's' && tail_char(p, 1) == 'e')
    ||| (tail_char(p, 0) == 'y')
    ||| (tail_char(p, 0) == 't' && tail_char(p, 1) == 'i')
    ||| (tail_char(p, 0) == 'd' && tail_char(p, 1) == 'o')
    ||| (tail_char(p, 0) == 's' && tail_char(p, 1) == 'n')
    ||| (tail_char(p, 0) == 'a')
    ||| (tail_char(p, 0) == 's' && tail_char(p, 1) == 'g' && tail_char(p, 2) == 'o')
    ||| (tail_char(p, 0) == 's' && tail_char(p, 1) == 'l')
    ||| (tail_char(p, 0) == 'e' && tail_char(p, 1) == 'h' && tail_char(p, 2) == 'c' && tail_char(p, 3) == 'a' && tail_char(p, 4) == 'C' && tail_char(p, 5) == ' ' && tail_char(p, 6) == 'e' && tail_char(p, 7) == 'd')
    ||| (tail_char(p, 0) == 'e' && tail_char(p, 1) == 'h' && tail_char(p, 2) == 'c' && tail_char(p, 3) == 'a' && tail_char(p, 4) == 'C' && tail_char(p, 5) == 'U')
    ||| (tail_char(p, 0) == 'e' && tail_char(p, 1) == 'h' && tail_char(p, 2) == 'c' && tail_char(p, 3) == 'a' && tail_char(p, 4) == 'C' && tail_char(p, 5) == 'e')
    ||| (tail_char(p, 0) == 'e' && tail_char(p, 1) == 'g')
    ||| (tail_char(p, 0) == 'e' && tail_char(p, 1) == 'h' && tail_char(p, 2) == 'c' && tail_char(p, 3) == 'a' && tail_char(p, 4) == 'C' && tail_char(p, 5) == 'r')
    ||| (tail_char(p, 0) == 'e' && tail_char(p, 1) == 'h' && tail_char(p, 2) == 'c' && tail_char(p, 3) == 'a' && tail_char(p, 4) == 'C' && tail_char(p, 5) == 'n')
    ||| (tail_char(p, 0) == '2')
}

proof fn lemma_shader_ends(dir: PathView)
    ensures
        ends_as_swept(path_descend(dir, "ShaderCache"@).parts()),
        ends_as_swept(path_descend(dir, "GrShaderCache"@).parts()),
        ends_as_swept(path_descend(dir, "GraphiteDawnCache"@).parts()),
{
    reveal_strlit("ShaderCache");
    lemma_descended_tail(dir, "ShaderCache"@, 0);
    lemma_descended_tail(dir, "ShaderCache"@, 1);
    lemma_descended_tail(dir, "ShaderCache"@, 2);
    lemma_descended_tail(dir, "ShaderCache"@, 3);
    lemma_descended_tail(dir, "ShaderCache"@, 4);
    lemma_descended_tail(dir, "ShaderCache"@, 5);
    reveal_strlit("GrShaderCache");
    lemma_descended_tail(dir, "GrShaderCache"@, 0);
    lemma_descended_tail(dir, "GrShaderCache"@, 1);
    lemma_descended_tail(dir, "GrShaderCache"@, 2);
    lemma_descended_tail(dir, "GrShaderCache"@, 3);
    lemma_descended_tail(dir, "GrShaderCache"@, 4);
    lemma_descended_tail(dir, "GrShaderCache"@, 5);
    reveal_strlit("GraphiteDawnCache");
    lemma_descended_tail(dir, "GraphiteDawnCache"@, 0);
    lemma_descended_tail(dir, "GraphiteDawnCache"@, 1);
    lemma_descended_tail(dir, "GraphiteDawnCache"@, 2);
    lemma_descended_tail(dir, "GraphiteDawnCache"@, 3);
    lemma_descended_tail(dir, "GraphiteDawnCache"@, 4);
    lemma_descended_tail(dir, "GraphiteDawnCache"@, 5);
}

proof fn lemma_profile_ends(dir: PathView)
    ensures
        ends_as_swept(path_descend(dir, "Cache"@).parts()),
        ends_as_swept(path_descend(dir, "Code Cache"@).parts()),
        ends_as_swept(path_descend(dir, "GPUCache"@).parts()),
        ends_as_swept(path_descend(dir, "DawnGraphiteCache"@).parts()),
        ends_as_swept(path_descend(dir, "DawnWebGPUCache"@).parts()),
        ends_as_swept(path_join(dir, "Service Worker/CacheStorage"@).parts()),
{
    reveal_strlit("Cache");
    lemma_descended_tail(dir, "Cache"@, 0);
    lemma_descended_tail(dir, "Cache"@, 1);
    lemma_descended_tail(dir, "Cache"@, 2);
    lemma_descended_tail(dir, "Cache"@, 3);
    lemma_descended_tail(dir, "Cache"@, 4);
    lemma_descended_tail(dir, "Cache"@, 5);
    reveal_strlit("Code Cache");
    lemma_descended_tail(dir, "Code Cache"@, 0);
    lemma_descended_tail(dir, "Code Cache"@, 1);
    lemma_descended_tail(dir, "Code Cache"@, 2);
    lemma_descended_tail(dir, "Code Cache"@, 3);
    lemma_descended_tail(dir, "Code Cache"@, 4);
    lemma_descended_tail(dir, "Code Cache"@, 5);
    lemma_descended_tail(dir, "Code Cache"@, 6);
    lemma_descended_tail(dir, "Code Cache"@, 7);
    reveal_strlit("GPUCache");
    lemma_descended_tail(dir, "GPUCache"@, 0);
    lemma_descended_tail(dir, "GPUCache"@, 1);
    lemma_descended_tail(dir, "GPUCache"@, 2);
    lemma_descended_tail(dir, "GPUCache"@, 3);
    lemma_descended_tail(dir, "GPUCache"@, 4);
    lemma_descended_tail(dir, "GPUCache"@, 5);
    reveal_strlit("DawnGraphiteCache");
    lemma_descended_tail(dir, "DawnGraphiteCache"@, 0);
    lemma_descended_tail(dir, "DawnGraphiteCache"@, 1);
    lemma_descended_tail(dir, "DawnGraphiteCache"@, 2);
    lemma_descended_tail(dir, "DawnGraphiteCache"@, 3);
    lemma_descended_tail(dir, "DawnGraphiteCache"@, 4);
    lemma_descended_tail(dir, "DawnGraphiteCache"@, 5);
    reveal_strlit("DawnWebGPUCache");
    lemma_descended_tail(dir, "DawnWebGPUCache"@, 0);
    lemma_descended_tail(dir, "DawnWebGPUCache"@, 1);
    lemma_descended_tail(dir, "DawnWebGPUCache"@, 2);
    lemma_descended_tail(dir, "DawnWebGPUCache"@, 3);
    lemma_descended_tail(dir, "DawnWebGPUCache"@, 4);
    lemma_descended_tail(dir, "DawnWebGPUCache"@, 5);
    reveal_strlit("Service Worker/CacheStorage");
    lemma_joined_tail(dir, "Service Worker/CacheStorage"@, 0);
    lemma_joined_tail(dir, "Service Worker/CacheStorage"@, 1);
}

proof fn lemma_bin_end(dir: PathView)
    ensures
        ends_as_swept(path_descend(dir, "$Recycle.Bin"@).parts()),
{
    reveal_strlit("$Recycle.Bin");
    lemma_descended_tail(dir, "$Recycle.Bin"@, 0);
}

proof fn lemma_firefox_end(dir: PathView)
    ensures
        ends_as_swept(path_descend(dir, "cache2"@).parts()),
{
    reveal_strlit("cache2");
    lemma_descended_tail(dir, "cache2"@, 0);
}

proof fn lemma_drive_letter(i: int)
    requires
        0 <= i < DRIVE_LETTERS@.len(),
    ensures
        'C' <= DRIVE_LETTERS@[i] <= 'Z',
        DRIVE_LETTERS@[i] as u32 == 'C' as u32 + i,
        DRIVE_LETTERS@.len() == 24,
{
    reveal_strlit("CDEFGHIJKLMNOPQRSTUVWXYZ");
    if i == 0 {
    } else if i == 1 {
    } else if i == 2 {
    } else if i == 3 {
    } else if i == 4 {
    } else if i == 5 {
    } else if i == 6 {
    } else if i == 7 {
    } else if i == 8 {
    } else if i == 9 {
    } else if i == 10 {
    } else if i == 11 {
    } else if i == 12 {
    } else if i == 13 {
    } else if i == 14 {
    } else if i == 15 {
    } else if i == 16 {
    } else if i == 17 {
    } else if i == 18 {
    } else if i == 19 {
    } else if i == 20 {
    } else if i == 21 {
    } else if i == 22 {
    } else {
        assert(i == 23);
    }
}

proof fn lemma_candidate_kind(
    home: PathView,
    env: WindowsEnvView,
    listings: Seq<ListingView>,
    k: int,
)
    requires
        0 <= k < candidates(home, env, listings).len(),
    ensures
        ({
            let t = candidates(home, env, listings)[k];
            ||| named_candidates(home, env).contains(t)
            ||| exists|letter: char|
                'C' <= letter <= 'Z' && t == (#[trigger] bin_of_drive(letter), Category::RecycleBin)
            ||| t.1 == Category::BrowserCache && ends_as_swept(t.0.parts())
        }),
{
    let t = candidates(home, env, listings)[k];
    let named = named_candidates(home, env);
    let bins = recycle_bins(DRIVE_LETTERS@);
    let local = local_dir(home, env);
    let profiles = path_descend(local, "Mozilla/Firefox/Profiles"@);
    let browsers = browsers_candidates(browser_dirs(local), listings);
    let firefox = firefox_candidates(profiles, listed(listings, profiles));
    let a = named.len() as int;
    let b = a + bins.len();
    let c = b + browsers.len();
    if k < a {
        assert(t == named[k]);
    } else if k < b {
        assert(t == bins[k - a]);
        lemma_drive_letter(k - a);
        assert(t.0 == bin_of_drive(DRIVE_LETTERS@[k - a]));
    } else if k < c {
        assert(t == browsers[k - b]);
        lemma_browsers_only(browser_dirs(local), listings, k - b);
    } else {
        assert(t == firefox[k - c]);
        let entries = listed(listings, profiles)->0;
        lemma_firefox_end(profiles.child(entries[k - c].name));
    }
}

proof fn lemma_regenerable_ends_a(home: PathView, env: WindowsEnvView)
    ensures
        ({
            let local = local_dir(home, env);
            let roaming = roaming_dir(home, env);
            let win = system_dir(env);
            let shared = shared_dir(env);
            &&& ends_as_swept(path_descend(win, "Temp"@).parts())
            &&& ends_as_swept(path_descend(win, "SoftwareDistribution/Download"@).parts())
            &&& ends_as_swept(path_descend(win, "SoftwareDistribution/DeliveryOptimization"@).parts())
            &&& ends_as_swept(path_descend(shared, "Microsoft/Network/Downloader"@).parts())
            &&& ends_as_swept(path_descend(local, "CrashDumps"@).parts())
            &&& ends_as_swept(path_descend(win, "Minidump"@).parts())
            &&& ends_as_swept(path_descend(win, "LiveKernelReports"@).parts())
            &&& ends_as_swept(path_descend(local, "Microsoft/Windows/WER"@).parts())
            &&& ends_as_swept(path_descend(shared, "Microsoft/Windows/WER"@).parts())
            &&& ends_as_swept(path_descend(local, "Microsoft/Windows/INetCache"@).parts())
            &&& ends_as_swept(path_descend(local, "Microsoft/Windows/WebCache"@).parts())
            &&& ends_as_swept(path_descend(local, "D3DSCache"@).parts())
        }),
{
    let local = local_dir(home, env);
    let roaming = roaming_dir(home, env);
    let win = system_dir(env);
    let shared = shared_dir(env);
    reveal_strlit("Temp");
    lemma_descended_tail(win, "Temp"@, 0);
    reveal_strlit("SoftwareDistribution/Download");
    lemma_descended_tail(win, "SoftwareDistribution/Download"@, 0);
    lemma_descended_tail(win, "SoftwareDistribution/Download"@, 1);
    reveal_strlit("SoftwareDistribution/DeliveryOptimization");
    lemma_descended_tail(win, "SoftwareDistribution/DeliveryOptimization"@, 0);
    reveal_strlit("Microsoft/Network/Downloader");
    lemma_descended_tail(shared, "Microsoft/Network/Downloader"@, 0);
    lemma_descended_tail(shared, "Microsoft/Network/Downloader"@, 1);
    lemma_descended_tail(shared, "Microsoft/Network/Downloader"@, 2);
    reveal_strlit("CrashDumps");
    lemma_descended_tail(local, "CrashDumps"@, 0);
    lemma_descended_tail(local, "CrashDumps"@, 1);
    reveal_strlit("Minidump");
    lemma_descended_tail(win, "Minidump"@, 0);
    reveal_strlit("LiveKernelReports");
    lemma_descended_tail(win, "LiveKernelReports"@, 0);
    lemma_descended_tail(win, "LiveKernelReports"@, 1);
    reveal_strlit("Microsoft/Windows/WER");
    lemma_descended_tail(local, "Microsoft/Windows/WER"@, 0);
    reveal_strlit("Microsoft/Windows/WER");
    lemma_descended_tail(shared, "Microsoft/Windows/WER"@, 0);
    reveal_strlit("Microsoft/Windows/INetCache");
    lemma_descended_tail(local, "Microsoft/Windows/INetCache"@, 0);
    lemma_descended_tail(local, "Microsoft/Windows/INetCache"@, 1);
    lemma_descended_tail(local, "Microsoft/Windows/INetCache"@, 2);
    lemma_descended_tail(local, "Microsoft/Windows/INetCache"@, 3);
    lemma_descended_tail(local, "Microsoft/Windows/INetCache"@, 4);
    lemma_descended_tail(local, "Microsoft/Windows/INetCache"@, 5);
    reveal_strlit("Microsoft/Windows/WebCache");
    lemma_descended_tail(local, "Microsoft/Windows/WebCache"@, 0);
    lemma_descended_tail(local, "Microsoft/Windows/WebCache"@, 1);
    lemma_descended_tail(local, "Microsoft/Windows/WebCache"@, 2);
    lemma_descended_tail(local, "Microsoft/Windows/WebCache"@, 3);
    lemma_descended_tail(local, "Microsoft/Windows/WebCache"@, 4);
    lemma_descended_tail(local, "Microsoft/Windows/WebCache"@, 5);
    reveal_strlit("D3DSCache");
    lemma_descended_tail(local, "D3DSCache"@, 0);
    lemma_descended_tail(local, "D3DSCache"@, 1);
    lemma_descended_tail(local, "D3DSCache"@, 2);
    lemma_descended_tail(local, "D3DSCache"@, 3);
    lemma_descended_tail(local, "D3DSCache"@, 4);
    lemma_descended_tail(local, "D3DSCache"@, 5);
}

proof fn lemma_regenerable_ends_b(home: PathView, env: WindowsEnvView)
    ensures
        ({
            let local = local_dir(home, env);
            let roaming = roaming_dir(home, env);
            let win = system_dir(env);
            let shared = shared_dir(env);
            &&& ends_as_swept(path_descend(local, "NVIDIA/DXCache"@).parts())
            &&& ends_as_swept(path_descend(local, "NVIDIA/GLCache"@).parts())
            &&& ends_as_swept(path_descend(local, "AMD/DxCache"@).parts())
            &&& ends_as_swept(path_descend(local, "Microsoft/Windows/Explorer"@).parts())
            &&& ends_as_swept(path_descend(local, "npm-cache"@).parts())
            &&& ends_as_swept(path_descend(home, ".npm/_cacache"@).parts())
            &&& ends_as_swept(path_descend(local, "Yarn/Cache"@).parts())
            &&& ends_as_swept(path_descend(home, ".yarn/berry/cache"@).parts())
            &&& ends_as_swept(path_descend(local, "pnpm-store"@).parts())
            &&& ends_as_swept(path_descend(local, "pnpm/store"@).parts())
            &&& ends_as_swept(path_descend(local, "pip/Cache"@).parts())
            &&& ends_as_swept(path_descend(local, "uv/cache"@).parts())
        }),
{
    let local = local_dir(home, env);
    let roaming = roaming_dir(home, env);
    let win = system_dir(env);
    let shared = shared_dir(env);
    reveal_strlit("NVIDIA/DXCache");
    lemma_descended_tail(local, "NVIDIA/DXCache"@, 0);
    lemma_descended_tail(local, "NVIDIA/DXCache"@, 1);
    lemma_descended_tail(local, "NVIDIA/DXCache"@, 2);
    lemma_descended_tail(local, "NVIDIA/DXCache"@, 3);
    lemma_descended_tail(local, "NVIDIA/DXCache"@, 4);
    lemma_descended_tail(local, "NVIDIA/DXCache"@, 5);
    reveal_strlit("NVIDIA/GLCache");
    lemma_descended_tail(local, "NVIDIA/GLCache"@, 0);
    lemma_descended_tail(local, "NVIDIA/GLCache"@, 1);
    lemma_descended_tail(local, "NVIDIA/GLCache"@, 2);
    lemma_descended_tail(local, "NVIDIA/GLCache"@, 3);
    lemma_descended_tail(local, "NVIDIA/GLCache"@, 4);
    lemma_descended_tail(local, "NVIDIA/GLCache"@, 5);
    reveal_strlit("AMD/DxCache");
    lemma_descended_tail(local, "AMD/DxCache"@, 0);
    lemma_descended_tail(local, "AMD/DxCache"@, 1);
    lemma_descended_tail(local, "AMD/DxCache"@, 2);
    lemma_descended_tail(local, "AMD/DxCache"@, 3);
    lemma_descended_tail(local, "AMD/DxCache"@, 4);
    lemma_descended_tail(local, "AMD/DxCache"@, 5);
    reveal_strlit("Microsoft/Windows/Explorer");
    lemma_descended_tail(local, "Microsoft/Windows/Explorer"@, 0);
    lemma_descended_tail(local, "Microsoft/Windows/Explorer"@, 1);
    lemma_descended_tail(local, "Microsoft/Windows/Explorer"@, 2);
    reveal_strlit("npm-cache");
    lemma_descended_tail(local, "npm-cache"@, 0);
    lemma_descended_tail(local, "npm-cache"@, 1);
    lemma_descended_tail(local, "npm-cache"@, 2);
    lemma_descended_tail(local, "npm-cache"@, 3);
    lemma_descended_tail(local, "npm-cache"@, 4);
    reveal_strlit(".npm/_cacache");
    lemma_descended_tail(home, ".npm/_cacache"@, 0);
    lemma_descended_tail(home, ".npm/_cacache"@, 1);
    lemma_descended_tail(home, ".npm/_cacache"@, 2);
    lemma_descended_tail(home, ".npm/_cacache"@, 3);
    lemma_descended_tail(home, ".npm/_cacache"@, 4);
    reveal_strlit("Yarn/Cache");
    lemma_descended_tail(local, "Yarn/Cache"@, 0);
    lemma_descended_tail(local, "Yarn/Cache"@, 1);
    lemma_descended_tail(local, "Yarn/Cache"@, 2);
    lemma_descended_tail(local, "Yarn/Cache"@, 3);
    lemma_descended_tail(local, "Yarn/Cache"@, 4);
    lemma_descended_tail(local, "Yarn/Cache"@, 5);
    reveal_strlit(".yarn/berry/cache");
    lemma_descended_tail(home, ".yarn/berry/cache"@, 0);
    lemma_descended_tail(home, ".yarn/berry/cache"@, 1);
    lemma_descended_tail(home, ".yarn/berry/cache"@, 2);
    lemma_descended_tail(home, ".yarn/berry/cache"@, 3);
    lemma_descended_tail(home, ".yarn/berry/cache"@, 4);
    reveal_strlit("pnpm-store");
    lemma_descended_tail(local, "pnpm-store"@, 0);
    lemma_descended_tail(local, "pnpm-store"@, 1);
    reveal_strlit("pnpm/store");
    lemma_descended_tail(local, "pnpm/store"@, 0);
    lemma_descended_tail(local, "pnpm/store"@, 1);
    reveal_strlit("pip/Cache");
    lemma_descended_tail(local, "pip/Cache"@, 0);
    lemma_descended_tail(local, "pip/Cache"@, 1);
    lemma_descended_tail(local, "pip/Cache"@, 2);
    lemma_descended_tail(local, "pip/Cache"@, 3);
    lemma_descended_tail(local, "pip/Cache"@, 4);
    lemma_descended_tail(local, "pip/Cache"@, 5);
    reveal_strlit("uv/cache");
    lemma_descended_tail(local, "uv/cache"@, 0);
    lemma_descended_tail(local, "uv/cache"@, 1);
    lemma_descended_tail(local, "uv/cache"@, 2);
    lemma_descended_tail(local, "uv/cache"@, 3);
    lemma_descended_tail(local, "uv/cache"@, 4);
}

proof fn lemma_regenerable_ends_c(home: PathView, env: WindowsEnvView)
    ensures
        ({
            let local = local_dir(home, env);
            let roaming = roaming_dir(home, env);
            let win = system_dir(env);
            let shared = shared_dir(env);
            &&& ends_as_swept(path_descend(home, ".nuget/packages"@).parts())
            &&& ends_as_swept(path_descend(local, "NuGet/v3-cache"@).parts())
            &&& ends_as_swept(path_descend(home, ".cargo/registry"@).parts())
            &&& ends_as_swept(path_descend(home, ".cargo/git"@).parts())
            &&& ends_as_swept(path_descend(home, ".gradle/caches"@).parts())
            &&& ends_as_swept(path_descend(home, ".m2/repository"@).parts())
            &&& ends_as_swept(path_descend(home, "go/pkg/mod"@).parts())
            &&& ends_as_swept(path_descend(local, "JetBrains"@).parts())
            &&& ends_as_swept(path_descend(roaming, "Code/Cache"@).parts())
            &&& ends_as_swept(path_descend(roaming, "Code/CachedData"@).parts())
            &&& ends_as_swept(path_descend(roaming, "Code/logs"@).parts())
            &&& ends_as_swept(path_descend(local, "Microsoft/vscode-cpptools"@).parts())
        }),
{
    let local = local_dir(home, env);
    let roaming = roaming_dir(home, env);
    let win = system_dir(env);
    let shared = shared_dir(env);
    reveal_strlit(".nuget/packages");
    lemma_descended_tail(home, ".nuget/packages"@, 0);
    lemma_descended_tail(home, ".nuget/packages"@, 1);
    reveal_strlit("NuGet/v3-cache");
    lemma_descended_tail(local, "NuGet/v3-cache"@, 0);
    lemma_descended_tail(local, "NuGet/v3-cache"@, 1);
    lemma_descended_tail(local, "NuGet/v3-cache"@, 2);
    lemma_descended_tail(local, "NuGet/v3-cache"@, 3);
    lemma_descended_tail(local, "NuGet/v3-cache"@, 4);
    reveal_strlit(".cargo/registry");
    lemma_descended_tail(home, ".cargo/registry"@, 0);
    reveal_strlit(".cargo/git");
    lemma_descended_tail(home, ".cargo/git"@, 0);
    lemma_descended_tail(home, ".cargo/git"@, 1);
    reveal_strlit(".gradle/caches");
    lemma_descended_tail(home, ".gradle/caches"@, 0);
    lemma_descended_tail(home, ".gradle/caches"@, 1);
    reveal_strlit(".m2/repository");
    lemma_descended_tail(home, ".m2/repository"@, 0);
    reveal_strlit("go/pkg/mod");
    lemma_descended_tail(home, "go/pkg/mod"@, 0);
    lemma_descended_tail(home, "go/pkg/mod"@, 1);
    reveal_strlit("JetBrains");
    lemma_descended_tail(local, "JetBrains"@, 0);
    lemma_descended_tail(local, "JetBrains"@, 1);
    reveal_strlit("Code/Cache");
    lemma_descended_tail(roaming, "Code/Cache"@, 0);
    lemma_descended_tail(roaming, "Code/Cache"@, 1);
    lemma_descended_tail(roaming, "Code/Cache"@, 2);
    lemma_descended_tail(roaming, "Code/Cache"@, 3);
    lemma_descended_tail(roaming, "Code/Cache"@, 4);
    lemma_descended_tail(roaming, "Code/Cache"@, 5);
    reveal_strlit("Code/CachedData");
    lemma_descended_tail(roaming, "Code/CachedData"@, 0);
    reveal_strlit("Code/logs");
    lemma_descended_tail(roaming, "Code/logs"@, 0);
    lemma_descended_tail(roaming, "Code/logs"@, 1);
    lemma_descended_tail(roaming, "Code/logs"@, 2);
    reveal_strlit("Microsoft/vscode-cpptools");
    lemma_descended_tail(local, "Microsoft/vscode-cpptools"@, 0);
    lemma_descended_tail(local, "Microsoft/vscode-cpptools"@, 1);
}

proof fn lemma_named_ends(home: PathView, env: WindowsEnvView, k: int)
    requires
        0 < k < named_candidates(home, env).len(),
        named_candidates(home, env)[k].1.is_regenerable(),
    ensures
        ends_as_swept(named_candidates(home, env)[k].0.parts()),
{
    lemma_regenerable_ends_a(home, env);
    lemma_regenerable_ends_b(home, env);
    lemma_regenerable_ends_c(home, env);
}

/// The place is one of those that hold real state.
pub open spec fn holds_state(home: PathView, env: WindowsEnvView, p: PathView) -> bool {
    let local = local_dir(home, env);
    let win = system_dir(env);
    let shared = shared_dir(env);
    let drive = system_drive_dir(env);
    ||| p == path_descend(drive, "Windows.old"@)
    ||| p == path_descend(drive, "$WinREAgent"@)
    ||| p == path_descend(drive, "$Windows.~BT"@)
    ||| p == path_descend(drive, "$Windows.~WS"@)
    ||| p == path_descend(drive, "$SysReset"@)
    ||| p == path_descend(shared, "Package Cache"@)
    ||| p == path_descend(win, "Installer"@)
    ||| p == path_descend(local, "Docker/wsl"@)
    ||| p == path_descend(local, "wsl"@)
    ||| p == path_descend(local, "Android/Sdk"@)
    ||| p == path_descend(home, ".android/avd"@)
    ||| p == path_descend(local, "Google/DriveFS"@)
    ||| p == path_descend(local, "Microsoft/OneDrive/settings"@)
    ||| p == path_descend(local, "Dropbox"@)
    ||| p == path_descend(local, "Box"@)
    ||| p == path_descend(local, "Apple Inc"@)
    ||| p == path_descend(local, "Microsoft/Office"@)
}

proof fn lemma_state_ends(home: PathView, env: WindowsEnvView, p: PathView)
    requires
        holds_state(home, env, p),
    ensures
        !ends_as_swept(p.parts()),
{
    let local = local_dir(home, env);
    let win = system_dir(env);
    let shared = shared_dir(env);
    let drive = system_drive_dir(env);
    reveal_strlit("Windows.old");
    lemma_descended_tail(drive, "Windows.old"@, 0);
    lemma_descended_tail(drive, "Windows.old"@, 1);
    reveal_strlit("$WinREAgent");
    lemma_descended_tail(drive, "$WinREAgent"@, 0);
    lemma_descended_tail(drive, "$WinREAgent"@, 1);
    reveal_strlit("$Windows.~BT");
    lemma_descended_tail(drive, "$Windows.~BT"@, 0);
    reveal_strlit("$Windows.~WS");
    lemma_descended_tail(drive, "$Windows.~WS"@, 0);
    reveal_strlit("$SysReset");
    lemma_descended_tail(drive, "$SysReset"@, 0);
    lemma_descended_tail(drive, "$SysReset"@, 1);
    reveal_strlit("Package Cache");
    lemma_descended_tail(shared, "Package Cache"@, 0);
    lemma_descended_tail(shared, "Package Cache"@, 1);
    lemma_descended_tail(shared, "Package Cache"@, 2);
    lemma_descended_tail(shared, "Package Cache"@, 3);
    lemma_descended_tail(shared, "Package Cache"@, 4);
    lemma_descended_tail(shared, "Package Cache"@, 5);
    lemma_descended_tail(shared, "Package Cache"@, 6);
    lemma_descended_tail(shared, "Package Cache"@, 7);
    reveal_strlit("Installer");
    lemma_descended_tail(win, "Installer"@, 0);
    lemma_descended_tail(win, "Installer"@, 1);
    lemma_descended_tail(win, "Installer"@, 2);
    reveal_strlit("Docker/wsl");
    lemma_descended_tail(local, "Docker/wsl"@, 0);
    reveal_strlit("wsl");
    lemma_descended_tail(local, "wsl"@, 0);
    reveal_strlit("Android/Sdk");
    lemma_descended_tail(local, "Android/Sdk"@, 0);
    reveal_strlit(".android/avd");
    lemma_descended_tail(home, ".android/avd"@, 0);
    lemma_descended_tail(home, ".android/avd"@, 1);
    reveal_strlit("Google/DriveFS");
    lemma_descended_tail(local, "Google/DriveFS"@, 0);
    reveal_strlit("Microsoft/OneDrive/settings");
    lemma_descended_tail(local, "Microsoft/OneDrive/settings"@, 0);
    lemma_descended_tail(local, "Microsoft/OneDrive/settings"@, 1);
    lemma_descended_tail(local, "Microsoft/OneDrive/settings"@, 2);
    reveal_strlit("Dropbox");
    lemma_descended_tail(local, "Dropbox"@, 0);
    reveal_strlit("Box");
    lemma_descended_tail(local, "Box"@, 0);
    reveal_strlit("Apple Inc");
    lemma_descended_tail(local, "Apple Inc"@, 0);
    reveal_strlit("Microsoft/Office");
    lemma_descended_tail(local, "Microsoft/Office"@, 0);
    lemma_descended_tail(local, "Microsoft/Office"@, 1);
}

proof fn lemma_state_is_listed(home: PathView, env: WindowsEnvView, p: PathView)
    requires
        holds_state(home, env, p),
    ensures
        exists|k: int|
            0 <= k < named_candidates(home, env).len() && (#[trigger] named_candidates(
                home,
                env,
            )[k]).0 == p,
{
    let local = local_dir(home, env);
    let roaming = roaming_dir(home, env);
    let win = system_dir(env);
    let shared = shared_dir(env);
    let drive = system_drive_dir(env);
    let list = named_candidates(home, env);
    assert(list[5].0 == path_descend(drive, "Windows.old"@));
    assert(list[6].0 == path_descend(drive, "$WinREAgent"@));
    assert(list[7].0 == path_descend(drive, "$Windows.~BT"@));
    assert(list[8].0 == path_descend(drive, "$Windows.~WS"@));
    assert(list[9].0 == path_descend(drive, "$SysReset"@));
    assert(list[22].0 == path_descend(shared, "Package Cache"@));
    assert(list[23].0 == path_descend(win, "Installer"@));
    assert(list[44].0 == path_descend(local, "Docker/wsl"@));
    assert(list[45].0 == path_descend(local, "wsl"@));
    assert(list[46].0 == path_descend(local, "Android/Sdk"@));
    assert(list[47].0 == path_descend(home, ".android/avd"@));
    assert(list[48].0 == path_descend(local, "Google/DriveFS"@));
    assert(list[49].0 == path_descend(local, "Microsoft/OneDrive/settings"@));
    assert(list[50].0 == path_descend(local, "Dropbox"@));
    assert(list[51].0 == path_descend(local, "Box"@));
    assert(list[52].0 == path_descend(local, "Apple Inc"@));
    assert(list[53].0 == path_descend(local, "Microsoft/Office"@));
}

/// A place that holds real state is never reported under a category that may be
/// swept, unless it is the session's temp directory.
pub proof fn real_state_is_never_swept(
    home: PathView,
    env: WindowsEnvView,
    listings: Seq<ListingView>,
    present: Seq<PathView>,
    web_caches: Seq<TargetView>,
    p: PathView,
    i: int,
)
    requires
        ({
            let local = local_dir(home, env);
            let win = system_dir(env);
            let shared = shared_dir(env);
            let drive = system_drive_dir(env);
            ||| p == path_descend(drive, "Windows.old"@)
            ||| p == path_descend(drive, "$WinREAgent"@)
            ||| p == path_descend(drive, "$Windows.~BT"@)
            ||| p == path_descend(drive, "$Windows.~WS"@)
            ||| p == path_descend(drive, "$SysReset"@)
            ||| p == path_descend(shared, "Package Cache"@)
            ||| p == path_descend(win, "Installer"@)
            ||| p == path_descend(local, "Docker/wsl"@)
            ||| p == path_descend(local, "wsl"@)
            ||| p == path_descend(local, "Android/Sdk"@)
            ||| p == path_descend(home, ".android/avd"@)
            ||| p == path_descend(local, "Google/DriveFS"@)
            ||| p == path_descend(local, "Microsoft/OneDrive/settings"@)
            ||| p == path_descend(local, "Dropbox"@)
            ||| p == path_descend(local, "Box"@)
            ||| p == path_descend(local, "Apple Inc"@)
            ||| p == path_descend(local, "Microsoft/Office"@)
        }),
        present.contains(p),
        !same_path(env.temp, p),
        0 <= i < all_targets(home, env, listings, present, web_caches).len(),
        same_path(all_targets(home, env, listings, present, web_caches)[i].0, p),
    ensures
        !all_targets(home, env, listings, present, web_caches)[i].1.is_regenerable(),
{
    let t = all_targets(home, env, listings, present, web_caches)[i];
    let list = candidates(home, env, listings);
    let first = named_candidates(home, env);
    let named = seen_on_disk(list, present);
    assert(holds_state(home, env, p));
    lemma_state_ends(home, env, p);
    lemma_origin(home, env, listings, present, web_caches, i);
    if list.contains(t) {
        let k = choose|k: int| 0 <= k < list.len() && list[k] == t;
        lemma_candidate_kind(home, env, listings, k);
        if first.contains(t) {
            let n = choose|n: int| 0 <= n < first.len() && first[n] == t;
            if n == 0 {
                assert(t.0 == env.temp);
            } else if t.1.is_regenerable() {
                lemma_named_ends(home, env, n);
            }
        } else if !(t.1 == Category::BrowserCache && ends_as_swept(t.0.parts())) {
            let letter = choose|letter: char|
                'C' <= letter <= 'Z' && t == (#[trigger] bin_of_drive(letter), Category::RecycleBin);
            lemma_bin_end(drive_root(seq![letter, ':']));
        }
    } else {
        lemma_state_is_listed(home, env, p);
        let k = choose|k: int| 0 <= k < first.len() && (#[trigger] first[k]).0 == p;
        assert(list[k] == first[k]);
        assert(list.contains(list[k]));
        lemma_candidate_found(home, env, listings, present, web_caches, list[k]);
        let n = choose|n: int| 0 <= n < named.len() && named[n] == list[k];
        assert(same_path(named[n].0, t.0));
        assert(claims(named, t.0));
    }
}

/// A file whose attributes say that it is offline or recalled when it is opened
/// or read is a placeholder, and no other file is.
pub proof fn placeholders_are_known_by_their_attributes(meta: Metadata)
    ensures
        is_placeholder(meta) <==> meta.attributes & 0x1000 != 0 || meta.attributes & 0x4_0000 != 0
            || meta.attributes & 0x40_0000 != 0,
{
}

/// A sparse or compressed file counts what was answered of it, with the high half
/// of the size in front of the low one; any other file counts its length, and so
/// does one of which the answer was an error or there is none.
pub proof fn packed_files_count_what_they_occupy(meta: Metadata)
    ensures
        meta.attributes & 0x200 == 0 && meta.attributes & 0x800 == 0 ==> allocated(meta)
            == meta.len,
        meta.compressed is None ==> allocated(meta) == meta.len,
        meta.compressed matches Some(size) ==> {
            &&& size.low == 0xffff_ffff && size.error != 0 ==> allocated(meta) == meta.len
            &&& (meta.attributes & 0x200 != 0 || meta.attributes & 0x800 != 0) && !(size.low
                == 0xffff_ffff && size.error != 0) ==> allocated(meta) == size.high
                * 4_294_967_296 + size.low
        },
{
}

/// The walk keeps out of the system, of what is permanently denied, of temp
/// directories, of Store app data, of mounts and of what was installed, and of
/// nothing else.
pub proof fn these_places_are_skipped_and_no_others(
    home: PathView,
    env: WindowsEnvView,
    path: PathView,
)
    ensures
        ({
            let local = local_dir(home, env);
            let roaming = roaming_dir(home, env);
            let drive = system_drive_dir(env);
            under_any(path, default_skips(home, env)) <==> (is_inside(path, system_dir(env))
                || is_inside(path, path_descend(drive, "$Recycle.Bin"@))
                || is_inside(path, path_descend(drive, "Windows.old"@))
                || is_inside(path, path_descend(drive, "$WinREAgent"@))
                || is_inside(path, path_descend(drive, "System Volume Information"@))
                || is_inside(path, path_descend(drive, "$GetCurrent"@))
                || is_inside(path, env.temp)
                || is_inside(path, path_descend(local, "Temp"@))
                || is_inside(path, path_descend(local, "Microsoft/WindowsApps"@))
                || is_inside(path, path_descend(local, "Packages"@))
                || is_inside(path, path_descend(home, ".vscode/extensions"@))
                || is_inside(path, path_descend(home, ".vscode-server/extensions"@))
                || is_inside(path, path_descend(home, ".cursor/extensions"@))
                || is_inside(path, path_descend(home, ".windsurf/extensions"@))
                || is_inside(path, path_descend(home, ".bun/install/global"@))
                || is_inside(path, path_descend(roaming, "npm"@))
                || is_inside(path, path_descend(home, ".nvm"@))
                || is_inside(path, path_descend(home, ".fnm"@))
                || is_inside(path, path_descend(home, ".local/share/fnm"@))
                || is_inside(path, path_descend(home, ".volta"@))
                || is_inside(path, path_descend(home, ".nodenv"@))
                || is_inside(path, path_descend(home, ".asdf"@))
                || is_inside(path, path_descend(home, ".rbenv"@))
                || is_inside(path, path_descend(home, ".local/share/mise"@))
                || is_inside(path, path_descend(home, ".pyenv"@))
                || is_inside(path, path_descend(home, "scoop"@))
                || is_inside(path, path_descend(home, "anaconda3"@))
                || is_inside(path, path_descend(home, "miniconda3"@))
                || is_inside(path, path_descend(home, "miniforge3"@))
                || is_inside(path, path_descend(local, "Programs"@))
                || is_inside(path, path_descend(home, "OneDrive"@))
                || is_inside(path, path_descend(roaming, "nvm"@))
                || is_inside(path, path_descend(roaming, "fnm"@))
                || is_inside(path, path_descend(local, "Volta"@))
                || is_inside(path, path_descend(local, "mise"@)))
        }),
{
    let local = local_dir(home, env);
    let roaming = roaming_dir(home, env);
    let drive = system_drive_dir(env);
    let all = default_skips(home, env);
    assert(all[0] == system_dir(env));
    assert(all[1] == path_descend(drive, "$Recycle.Bin"@));
    assert(all[2] == path_descend(drive, "Windows.old"@));
    assert(all[3] == path_descend(drive, "$WinREAgent"@));
    assert(all[4] == path_descend(drive, "System Volume Information"@));
    assert(all[5] == path_descend(drive, "$GetCurrent"@));
    assert(all[6] == env.temp);
    assert(all[7] == path_descend(local, "Temp"@));
    assert(all[8] == path_descend(local, "Microsoft/WindowsApps"@));
    assert(all[9] == path_descend(local, "Packages"@));
    assert(all[10] == path_descend(home, ".vscode/extensions"@));
    assert(all[11] == path_descend(home, ".vscode-server/extensions"@));
    assert(all[12] == path_descend(home, ".cursor/extensions"@));
    assert(all[13] == path_descend(home, ".windsurf/extensions"@));
    assert(all[14] == path_descend(home, ".bun/install/global"@));
    assert(all[15] == path_descend(roaming, "npm"@));
    assert(all[16] == path_descend(home, ".nvm"@));
    assert(all[17] == path_descend(home, ".fnm"@));
    assert(all[18] == path_descend(home, ".local/share/fnm"@));
    assert(all[19] == path_descend(home, ".volta"@));
    assert(all[20] == path_descend(home, ".nodenv"@));
    assert(all[21] == path_descend(home, ".asdf"@));
    assert(all[22] == path_descend(home, ".rbenv"@));
    assert(all[23] == path_descend(home, ".local/share/mise"@));
    assert(all[24] == path_descend(home, ".pyenv"@));
    assert(all[25] == path_descend(home, "scoop"@));
    assert(all[26] == path_descend(home, "anaconda3"@));
    assert(all[27] == path_descend(home, "miniconda3"@));
    assert(all[28] == path_descend(home, "miniforge3"@));
    assert(all[29] == path_descend(local, "Programs"@));
    assert(all[30] == path_descend(home, "OneDrive"@));
    assert(all[31] == path_descend(roaming, "nvm"@));
    assert(all[32] == path_descend(roaming, "fnm"@));
    assert(all[33] == path_descend(local, "Volta"@));
    assert(all[34] == path_descend(local, "mise"@));
    assert(all.len() == 35);
    if under_any(path, all) {
        let i = choose|i: int| 0 <= i < all.len() && is_inside(path, #[trigger] all[i]);
        lemma_skip_is_named(home, env, i);
    }
}

proof fn lemma_skip_is_named(home: PathView, env: WindowsEnvView, i: int)
    requires
        0 <= i < default_skips(home, env).len(),
    ensures
        ({
            let local = local_dir(home, env);
            let roaming = roaming_dir(home, env);
            let drive = system_drive_dir(env);
            let skip = default_skips(home, env)[i];
            ||| skip == system_dir(env)
            ||| skip == path_descend(drive, "$Recycle.Bin"@)
            ||| skip == path_descend(drive, "Windows.old"@)
            ||| skip == path_descend(drive, "$WinREAgent"@)
            ||| skip == path_descend(drive, "System Volume Information"@)
            ||| skip == path_descend(drive, "$GetCurrent"@)
            ||| skip == env.temp
            ||| skip == path_descend(local, "Temp"@)
            ||| skip == path_descend(local, "Microsoft/WindowsApps"@)
            ||| skip == path_descend(local, "Packages"@)
            ||| skip == path_descend(home, ".vscode/extensions"@)
            ||| skip == path_descend(home, ".vscode-server/extensions"@)
            ||| skip == path_descend(home, ".cursor/extensions"@)
            ||| skip == path_descend(home, ".windsurf/extensions"@)
            ||| skip == path_descend(home, ".bun/install/global"@)
            ||| skip == path_descend(roaming, "npm"@)
            ||| skip == path_descend(home, ".nvm"@)
            ||| skip == path_descend(home, ".fnm"@)
            ||| skip == path_descend(home, ".local/share/fnm"@)
            ||| skip == path_descend(home, ".volta"@)
            ||| skip == path_descend(home, ".nodenv"@)
            ||| skip == path_descend(home, ".asdf"@)
            ||| skip == path_descend(home, ".rbenv"@)
            ||| skip == path_descend(home, ".local/share/mise"@)
            ||| skip == path_descend(home, ".pyenv"@)
            ||| skip == path_descend(home, "scoop"@)
            ||| skip == path_descend(home, "anaconda3"@)
            ||| skip == path_descend(home, "miniconda3"@)
            ||| skip == path_descend(home, "miniforge3"@)
            ||| skip == path_descend(local, "Programs"@)
            ||| skip == path_descend(home, "OneDrive"@)
            ||| skip == path_descend(roaming, "nvm"@)
            ||| skip == path_descend(roaming, "fnm"@)
            ||| skip == path_descend(local, "Volta"@)
            ||| skip == path_descend(local, "mise"@)
        }),
{
    let fixed = fixed_skips(home, env);
    let roots = software_roots(home, env);
    let runtimes = version_manager_roots(home);
    let guarded = guarded_roots(home, env);
    let all = default_skips(home, env);
    let a = fixed.len() as int;
    let b = a + roots.len();
    let c = b + runtimes.len();
    if i < a {
        assert(all[i] == fixed[i]);
    } else if i < b {
        assert(all[i] == roots[i - a]);
    } else if i < c {
        assert(all[i] == runtimes[i - b]);
    } else {
        assert(all[i] == guarded[i - c]);
    }
}

/// A checkout is looked for in five places.
pub proof fn checkouts_are_looked_for_in_five_places(home: PathView)
    ensures
        checkout_roots(home).len() == 5,
        checkout_roots(home).contains(path_descend(home, "Developer"@)),
        checkout_roots(home).contains(path_descend(home, "source/repos"@)),
        checkout_roots(home).contains(path_descend(home, "Documents/GitHub"@)),
        checkout_roots(home).contains(path_descend(home, "Projects"@)),
        checkout_roots(home).contains(path_descend(home, "Downloads"@)),
{
    let all = checkout_roots(home);
    assert(all[0] == path_descend(home, "Developer"@));
    assert(all[1] == path_descend(home, "source/repos"@));
    assert(all[2] == path_descend(home, "Documents/GitHub"@));
    assert(all[3] == path_descend(home, "Projects"@));
    assert(all[4] == path_descend(home, "Downloads"@));
}

/// The bin of every drive from C: to Z: is looked for.
pub proof fn every_drive_has_its_bin(
    home: PathView,
    env: WindowsEnvView,
    listings: Seq<ListingView>,
    letter: char,
)
    requires
        'C' <= letter <= 'Z',
    ensures
        candidates(home, env, listings).contains(
            (
                path_descend(root_path(seq![letter, ':'] + "\\"@, '\\'), "$Recycle.Bin"@),
                Category::RecycleBin,
            ),
        ),
{
    let i = letter as u32 - 'C' as u32;
    reveal_strlit("CDEFGHIJKLMNOPQRSTUVWXYZ");
    lemma_drive_letter(i);
    assert(DRIVE_LETTERS@[i] as u32 == letter as u32);
    assert(DRIVE_LETTERS@[i] == letter);
    let named = named_candidates(home, env);
    let all = candidates(home, env, listings);
    assert(all[named.len() + i] == recycle_bins(DRIVE_LETTERS@)[i]);
}

/// The directories of Chromium profiles are those called `Default`, `Guest
/// Profile`, or `Profile` and something behind a blank.
pub proof fn profiles_are_known_by_name(name: Seq<char>)
    ensures
        name == "Default"@ ==> is_profile(name),
        name == "Guest Profile"@ ==> is_profile(name),
        "Profile "@.is_prefix_of(name) ==> is_profile(name),
        name != "Default"@ && name != "Guest Profile"@ && !"Profile "@.is_prefix_of(name)
            ==> !is_profile(name),
{
}

proof fn lemma_profile_kept(dir: PathView, entries: Seq<EntryView>, i: int, t: TargetView)
    requires
        0 <= i < entries.len(),
        entries[i].is_dir,
        is_profile(part_text(entries[i].name)),
        profile_caches(dir.child(entries[i].name)).contains(t),
    ensures
        caches_of_profiles(dir, entries).contains(t),
    decreases entries.len(),
{
    let front = caches_of_profiles(dir, entries.drop_last());
    let all = caches_of_profiles(dir, entries);
    if i < entries.len() - 1 {
        lemma_profile_kept(dir, entries.drop_last(), i, t);
        let k = choose|k: int| 0 <= k < front.len() && front[k] == t;
        assert(all[k] == t);
    } else {
        let own = profile_caches(dir.child(entries[i].name));
        let k = choose|k: int| 0 <= k < own.len() && own[k] == t;
        assert(all[front.len() + k] == t);
    }
}

/// The caches of every profile of a Chromium browser are looked for, and those
/// beside the profiles.
pub proof fn every_profiles_caches_are_looked_for(dir: PathView, entries: Seq<EntryView>, i: int)
    requires
        0 <= i < entries.len(),
        entries[i].is_dir,
        ({
            let name = part_text(entries[i].name);
            name == "Default"@ || name == "Guest Profile"@ || "Profile "@.is_prefix_of(name)
        }),
    ensures
        ({
            let all = chromium_candidates(dir, Some(entries));
            let profile = dir.child(entries[i].name);
            &&& all.contains((path_descend(profile, "Cache"@), Category::BrowserCache))
            &&& all.contains((path_descend(profile, "Code Cache"@), Category::BrowserCache))
            &&& all.contains((path_descend(profile, "GPUCache"@), Category::BrowserCache))
            &&& all.contains((path_descend(profile, "DawnGraphiteCache"@), Category::BrowserCache))
            &&& all.contains((path_descend(profile, "DawnWebGPUCache"@), Category::BrowserCache))
            &&& all.contains(
                (path_join(profile, "Service Worker/CacheStorage"@), Category::BrowserCache),
            )
            &&& all.contains((path_descend(dir, "ShaderCache"@), Category::BrowserCache))
            &&& all.contains((path_descend(dir, "GrShaderCache"@), Category::BrowserCache))
            &&& all.contains((path_descend(dir, "GraphiteDawnCache"@), Category::BrowserCache))
        }),
{
    let profile = dir.child(entries[i].name);
    let own = profile_caches(profile);
    let kept = caches_of_profiles(dir, entries);
    let all = chromium_candidates(dir, Some(entries));
    let beside = shader_caches(dir);
    assert forall|t: TargetView| own.contains(t) implies #[trigger] all.contains(t) by {
        lemma_profile_kept(dir, entries, i, t);
        let k = choose|k: int| 0 <= k < kept.len() && kept[k] == t;
        assert(all[k] == t);
    }
    assert(own[0] == (path_descend(profile, "Cache"@), Category::BrowserCache));
    assert(own.contains(own[0]));
    assert(own[1] == (path_descend(profile, "Code Cache"@), Category::BrowserCache));
    assert(own.contains(own[1]));
    assert(own[2] == (path_descend(profile, "GPUCache"@), Category::BrowserCache));
    assert(own.contains(own[2]));
    assert(own[3] == (path_descend(profile, "DawnGraphiteCache"@), Category::BrowserCache));
    assert(own.contains(own[3]));
    assert(own[4] == (path_descend(profile, "DawnWebGPUCache"@), Category::BrowserCache));
    assert(own.contains(own[4]));
    assert(own[5] == (path_join(profile, "Service Worker/CacheStorage"@), Category::BrowserCache));
    assert(own.contains(own[5]));
    assert(all[kept.len() as int + 0] == beside[0]);
    assert(all[kept.len() as int + 1] == beside[1]);
    assert(all[kept.len() as int + 2] == beside[2]);
}

/// Of a profile nothing but its caches is looked for, and nothing at all where
/// the browser's directory could not be read.
pub proof fn only_caches_of_profiles_are_looked_for(
    dir: PathView,
    entries: Seq<EntryView>,
    k: int,
)
    requires
        0 <= k < chromium_candidates(dir, Some(entries)).len(),
    ensures
        chromium_candidates(dir, None).len() == 0,
        ({
            let t = chromium_candidates(dir, Some(entries))[k];
            &&& t.1 == Category::BrowserCache
            &&& {
                ||| t.0 == path_descend(dir, "ShaderCache"@)
                ||| t.0 == path_descend(dir, "GrShaderCache"@)
                ||| t.0 == path_descend(dir, "GraphiteDawnCache"@)
                ||| exists|i: int|
                    0 <= i < entries.len() && (#[trigger] entries[i]).is_dir && is_profile(
                        part_text(entries[i].name),
                    ) && is_profile_cache(dir.child(entries[i].name), t.0)
            }
        }),
{
    let kept = caches_of_profiles(dir, entries);
    let t = chromium_candidates(dir, Some(entries))[k];
    if k < kept.len() {
        assert(t == kept[k]);
        lemma_profile_origin(dir, entries, k);
    } else {
        assert(t == shader_caches(dir)[k - kept.len()]);
    }
}

/// The path is one of the caches in a profile.
pub open spec fn is_profile_cache(profile: PathView, path: PathView) -> bool {
    ||| path == path_descend(profile, "Cache"@)
    ||| path == path_descend(profile, "Code Cache"@)
    ||| path == path_descend(profile, "GPUCache"@)
    ||| path == path_descend(profile, "DawnGraphiteCache"@)
    ||| path == path_descend(profile, "DawnWebGPUCache"@)
    ||| path == path_join(profile, "Service Worker/CacheStorage"@)
}

proof fn lemma_profile_origin(dir: PathView, entries: Seq<EntryView>, k: int)
    requires
        0 <= k < caches_of_profiles(dir, entries).len(),
    ensures
        caches_of_profiles(dir, entries)[k].1 == Category::BrowserCache,
        exists|i: int|
            0 <= i < entries.len() && (#[trigger] entries[i]).is_dir && is_profile(
                part_text(entries[i].name),
            ) && is_profile_cache(
                dir.child(entries[i].name),
                caches_of_profiles(dir, entries)[k].0,
            ),
    decreases entries.len(),
{
    let some = entries.drop_last();
    let front = caches_of_profiles(dir, some);
    let all = caches_of_profiles(dir, entries);
    if k < front.len() {
        lemma_profile_origin(dir, some, k);
        let i = choose|i: int|
            0 <= i < some.len() && (#[trigger] some[i]).is_dir && is_profile(
                part_text(some[i].name),
            ) && is_profile_cache(dir.child(some[i].name), front[k].0);
        assert(entries[i] == some[i] && all[k] == front[k]);
    } else {
        let last = entries.len() - 1;
        assert(all[k] == profile_caches(dir.child(entries[last].name))[k - front.len()]);
        assert(entries[last].is_dir);
    }
}

/// Every browser is looked at whose directory could be read, and every profile of
/// Firefox.
pub proof fn every_browser_is_looked_at(
    home: PathView,
    env: WindowsEnvView,
    listings: Seq<ListingView>,
    dir: PathView,
    t: TargetView,
)
    requires
        ({
            let local = local_dir(home, env);
            ||| dir == path_descend(local, "Microsoft/Edge/User Data"@)
            ||| dir == path_descend(local, "Google/Chrome/User Data"@)
            ||| dir == path_descend(local, "BraveSoftware/Brave-Browser/User Data"@)
            ||| dir == path_descend(local, "Vivaldi/User Data"@)
            ||| dir == path_descend(local, "Chromium/User Data"@)
            ||| dir == path_descend(local, "Opera Software/Opera Stable"@)
        }),
        chromium_candidates(dir, listed(listings, dir)).contains(t),
    ensures
        candidates(home, env, listings).contains(t),
{
    let local = local_dir(home, env);
    let dirs = browser_dirs(local);
    assert(dirs[0] == path_descend(local, "Microsoft/Edge/User Data"@));
    assert(dirs[1] == path_descend(local, "Google/Chrome/User Data"@));
    assert(dirs[2] == path_descend(local, "BraveSoftware/Brave-Browser/User Data"@));
    assert(dirs[3] == path_descend(local, "Vivaldi/User Data"@));
    assert(dirs[4] == path_descend(local, "Chromium/User Data"@));
    assert(dirs[5] == path_descend(local, "Opera Software/Opera Stable"@));
    let i = choose|i: int| 0 <= i < dirs.len() && dirs[i] == dir;
    assert(0 <= i < dirs.len() && dirs[i] == dir);
    lemma_browser_kept(dirs, listings, i, t);
    let found = browsers_candidates(dirs, listings);
    let k = choose|k: int| 0 <= k < found.len() && found[k] == t;
    let ahead = named_candidates(home, env).len() + recycle_bins(DRIVE_LETTERS@).len();
    assert(candidates(home, env, listings)[ahead + k] == found[k]);
}

proof fn lemma_browser_kept(
    dirs: Seq<PathView>,
    listings: Seq<ListingView>,
    i: int,
    t: TargetView,
)
    requires
        0 <= i < dirs.len(),
        chromium_candidates(dirs[i], listed(listings, dirs[i])).contains(t),
    ensures
        browsers_candidates(dirs, listings).contains(t),
    decreases dirs.len(),
{
    let front = browsers_candidates(dirs.drop_last(), listings);
    let all = browsers_candidates(dirs, listings);
    if i < dirs.len() - 1 {
        lemma_browser_kept(dirs.drop_last(), listings, i, t);
        let k = choose|k: int| 0 <= k < front.len() && front[k] == t;
        assert(all[k] == t);
    } else {
        let own = chromium_candidates(dirs[i], listed(listings, dirs[i]));
        let k = choose|k: int| 0 <= k < own.len() && own[k] == t;
        assert(all[front.len() + k] == t);
    }
}

/// The cache of every profile of Firefox is looked for.
pub proof fn every_firefox_profile_is_looked_at(
    home: PathView,
    env: WindowsEnvView,
    listings: Seq<ListingView>,
    entries: Seq<EntryView>,
    i: int,
)
    requires
        listed(listings, path_descend(local_dir(home, env), "Mozilla/Firefox/Profiles"@)) == Some(
            entries,
        ),
        0 <= i < entries.len(),
    ensures
        candidates(home, env, listings).contains(
            (
                path_descend(
                    path_descend(local_dir(home, env), "Mozilla/Firefox/Profiles"@).child(
                        entries[i].name,
                    ),
                    "cache2"@,
                ),
                Category::BrowserCache,
            ),
        ),
{
    let local = local_dir(home, env);
    let profiles = path_descend(local, "Mozilla/Firefox/Profiles"@);
    let found = firefox_candidates(profiles, Some(entries));
    let all = candidates(home, env, listings);
    let ahead = named_candidates(home, env).len() + recycle_bins(DRIVE_LETTERS@).len()
        + browsers_candidates(browser_dirs(local), listings).len();
    assert(all[ahead + i] == found[i]);
}

/// The first listing of a directory counts, and only a listing of it.
pub proof fn a_directory_is_known_by_its_listing(listings: Seq<ListingView>, dir: PathView)
    ensures
        listed(listings, dir) matches Some(entries) ==> exists|i: int|
            0 <= i < listings.len() && (#[trigger] listings[i]).dir.parts() == dir.parts()
                && listings[i].entries == entries,
        listed(listings, dir) is None ==> forall|i: int|
            0 <= i < listings.len() ==> (#[trigger] listings[i]).dir.parts() != dir.parts(),
    decreases listings.len(),
{
    if listings.len() > 0 && !same_path(listings[0].dir, dir) {
        let rest = listings.drop_first();
        a_directory_is_known_by_its_listing(rest, dir);
        if listed(rest, dir) is Some {
            let i = choose|i: int|
                0 <= i < rest.len() && (#[trigger] rest[i]).dir.parts() == dir.parts()
                    && rest[i].entries == listed(rest, dir)->0;
            assert(listings[i + 1] == rest[i]);
        } else {
            assert forall|i: int| 0 <= i < listings.len() implies (#[trigger] listings[i]).dir.parts()
                != dir.parts() by {
                if i > 0 {
                    assert(rest[i - 1] == listings[i]);
                }
            }
        }
    }
}

/// A target directory that the environment shares is a build cache beside the
/// usual one.
pub proof fn shared_build_caches_are_rust_builds(home: PathView, env: WindowsEnvView)
    ensures
        build_cache_candidates(home, env).contains(
            (path_descend(home, ".build_caches/cargo"@), Category::RustTarget),
        ),
        env.cargo_target_dir matches Some(shared) && shared.steps.len() > 0
            ==> build_cache_candidates(home, env).contains(
            (env.cargo_target_dir->0, Category::RustTarget),
        ) && build_cache_candidates(home, env).len() == 2,
        env.cargo_target_dir is None || env.cargo_target_dir->0.steps.len() == 0
            ==> build_cache_candidates(home, env).len() == 1,
{
    let all = build_cache_candidates(home, env);
    let own = (path_descend(home, ".build_caches/cargo"@), Category::RustTarget);
    if env.cargo_target_dir is Some && env.cargo_target_dir->0.steps.len() > 0 {
        assert(all[0] == (env.cargo_target_dir->0, Category::RustTarget));
        assert(all[1] == own);
    } else {
        assert(all[0] == own);
    }
}

proof fn lemma_reserved_kept(
    files: Seq<(PathView, Seq<char>)>,
    present: Seq<PathView>,
    t: (PathView, Seq<char>),
)
    ensures
        reserved_on_disk(files, present).contains(t) <==> files.contains(t) && lists(present, t.0),
    decreases files.len(),
{
    if files.len() > 0 {
        let some = files.drop_last();
        let last = files.last();
        let front = reserved_on_disk(some, present);
        let all = reserved_on_disk(files, present);
        lemma_reserved_kept(some, present, t);
        if some.contains(t) {
            let k = choose|k: int| 0 <= k < some.len() && some[k] == t;
            assert(files[k] == t);
        }
        if front.contains(t) {
            let k = choose|k: int| 0 <= k < front.len() && front[k] == t;
            assert(all[k] == t);
        }
        if t == last {
            assert(files[files.len() - 1] == t);
            if lists(present, t.0) {
                assert(all[front.len() as int] == t);
            }
        }
        if all.contains(t) {
            let k = choose|k: int| 0 <= k < all.len() && all[k] == t;
            if k < front.len() {
                assert(front[k] == t);
            }
        }
        if files.contains(t) {
            let k = choose|k: int| 0 <= k < files.len() && files[k] == t;
            if k < some.len() {
                assert(some[k] == t);
            }
        }
    }
}

/// The three files that Windows reserves are reported where they exist, each with
/// what gives back its space.
pub proof fn reserved_files_come_with_their_command(env: WindowsEnvView, present: Seq<PathView>)
    ensures
        ({
            let drive = system_drive_dir(env);
            let all = reserved_on_disk(reserved_files(env), present);
            &&& present.contains(path_descend(drive, "hiberfil.sys"@)) ==> all.contains(
                (
                    path_descend(drive, "hiberfil.sys"@),
                    "disable hibernation to reclaim: powercfg /h off (elevated)"@,
                ),
            )
            &&& present.contains(path_descend(drive, "pagefile.sys"@)) ==> all.contains(
                (
                    path_descend(drive, "pagefile.sys"@),
                    "resize under System > Advanced > Performance > Virtual memory"@,
                ),
            )
            &&& present.contains(path_descend(drive, "swapfile.sys"@)) ==> all.contains(
                (
                    path_descend(drive, "swapfile.sys"@),
                    "goes away with the pagefile it backs"@,
                ),
            )
            &&& all.len() <= 3
        }),
{
    let drive = system_drive_dir(env);
    let files = reserved_files(env);
    lemma_reserved_length(files, present);
    let t0 = (path_descend(drive, "hiberfil.sys"@), "disable hibernation to reclaim: powercfg /h off (elevated)"@);
    assert(files[0] == t0);
    lemma_reserved_kept(files, present, t0);
    if present.contains(t0.0) {
        let k = choose|k: int| 0 <= k < present.len() && present[k] == t0.0;
        assert(same_path(present[k], t0.0));
    }
    let t1 = (path_descend(drive, "pagefile.sys"@), "resize under System > Advanced > Performance > Virtual memory"@);
    assert(files[1] == t1);
    lemma_reserved_kept(files, present, t1);
    if present.contains(t1.0) {
        let k = choose|k: int| 0 <= k < present.len() && present[k] == t1.0;
        assert(same_path(present[k], t1.0));
    }
    let t2 = (path_descend(drive, "swapfile.sys"@), "goes away with the pagefile it backs"@);
    assert(files[2] == t2);
    lemma_reserved_kept(files, present, t2);
    if present.contains(t2.0) {
        let k = choose|k: int| 0 <= k < present.len() && present[k] == t2.0;
        assert(same_path(present[k], t2.0));
    }
}

proof fn lemma_reserved_length(files: Seq<(PathView, Seq<char>)>, present: Seq<PathView>)
    ensures
        reserved_on_disk(files, present).len() <= files.len(),
    decreases files.len(),
{
    if files.len() > 0 {
        lemma_reserved_length(files.drop_last(), present);
    }
}

/// What PowerShell first said that is not blank counts.
pub proof fn the_first_answer_counts(answers: Seq<Option<Seq<char>>>, i: int)
    requires
        0 <= i < answers.len(),
        answers[i] matches Some(text) && trimmed(text).len() > 0,
        forall|k: int|
            0 <= k < i ==> ((#[trigger] answers[k]) matches Some(text) ==> trimmed(text).len() == 0),
    ensures
        told(answers) == Some(trimmed(answers[i]->0)),
    decreases answers.len(),
{
    if i > 0 {
        let rest = answers.drop_first();
        assert(answers[0] matches Some(text) ==> trimmed(text).len() == 0);
        assert forall|k: int| 0 <= k < i - 1 implies ((#[trigger] rest[k]) matches Some(text)
            ==> trimmed(text).len() == 0) by {
            assert(rest[k] == answers[k + 1]);
        }
        the_first_answer_counts(rest, i - 1);
    }
}

/// The commands that give back what should not be deleted.
pub proof fn the_hints_name_the_right_commands()
    ensures
        hints().len() == 3,
        hints()[0]
            == "Run from an elevated terminal to measure C:\\Windows and other system dirs."@,
        hints()[1] == "Component store: dism /Online /Cleanup-Image /StartComponentCleanup"@,
        hints()[2] == "Guided system cleanup: cleanmgr /sageset:1"@,
{
}

/// The variable that names the home directory.
pub proof fn home_is_named_by_a_variable()
    ensures
        HOME_VAR@ == "%USERPROFILE%"@,
{
}

} // verus!
