//! What a found directory is, and what may be done with it.

use vstd::prelude::*;

use crate::text::{ascii_lower, chars_of, joined, lower};

verus! {

#[derive(Debug, Clone, Copy, PartialEq, Eq, Hash, PartialOrd, Ord, Structural)]
pub enum Category {
    // Build artifacts, found by pattern during the walk.
    RustTarget,
    NodeModules,
    PythonBytecode,
    PythonEnv,
    NextJs,
    Nuxt,
    SvelteKit,
    CocoaPods,
    SwiftPmBuild,
    DotNetBuild,
    VisualStudioCache,
    GradleBuild,
    // macOS system directories.
    XcodeDerivedData,
    XcTestDevices,
    IosSimulators,
    SimulatorRuntimes,
    XcodeDeviceSupport,
    XcodeCaches,
    InstrumentsTraces,
    MacOsCaches,
    IphoneBackups,
    // Per-application state outside the walk.
    AppWebCache,
    ContainerCaches,
    ExpensiveCache,
    CloudMirror,
    // Windows system directories.
    WindowsTemp,
    WindowsUpdate,
    WindowsOld,
    RecycleBin,
    CrashDumps,
    WindowsCaches,
    ThumbnailCache,
    InstallerCache,
    BrowserCache,
    // Package and tool caches.
    NpmCache,
    YarnPnpmCache,
    HomebrewCache,
    UvCache,
    PipCache,
    NugetCache,
    CargoRegistry,
    GradleCache,
    MavenCache,
    GoModCache,
    IdeCache,
    // Large payloads that hold real state.
    DockerData,
    AndroidSdk,
    AndroidEmulator,
}

impl View for Category {
    type V = Category;

    open spec fn view(&self) -> Category {
        *self
    }
}

/// The letters and digits of ASCII.
pub open spec fn is_alnum(c: char) -> bool {
    'a' <= c <= 'z' || 'A' <= c <= 'Z' || '0' <= c <= '9'
}

/// The unbroken runs of ASCII letters and digits in `s`, in lower case.
pub open spec fn words_of(s: Seq<char>) -> Seq<Seq<char>>
    decreases s.len(),
{
    if s.len() == 0 {
        Seq::empty()
    } else {
        let words = words_of(s.drop_last());
        let c = s.last();
        if !is_alnum(c) {
            words
        } else if s.len() >= 2 && is_alnum(s[s.len() - 2]) {
            words.drop_last().push(words.last().push(ascii_lower(c)))
        } else {
            words.push(seq![ascii_lower(c)])
        }
    }
}

/// The words of `s` with a dash between each two.
pub open spec fn slug_of(s: Seq<char>) -> Seq<char> {
    joined(words_of(s), seq!['-'])
}

impl Category {
    pub open spec fn label_text(self) -> Seq<char> {
        match self {
            Category::RustTarget => "Rust target/"@,
            Category::NodeModules => "node_modules/"@,
            Category::PythonBytecode => "Python __pycache__"@,
            Category::PythonEnv => "Python virtualenv"@,
            Category::NextJs => "Next.js .next/"@,
            Category::Nuxt => "Nuxt .nuxt/"@,
            Category::SvelteKit => "SvelteKit .svelte-kit/"@,
            Category::CocoaPods => "CocoaPods Pods/"@,
            Category::SwiftPmBuild => "SwiftPM .build/"@,
            Category::DotNetBuild => ".NET bin/ + obj/"@,
            Category::VisualStudioCache => "Visual Studio .vs/"@,
            Category::GradleBuild => "Gradle build/"@,
            Category::XcodeDerivedData => "Xcode DerivedData"@,
            Category::XcTestDevices => "XCTest simulator clones"@,
            Category::IosSimulators => "iOS Simulators"@,
            Category::SimulatorRuntimes => "Simulator runtimes"@,
            Category::XcodeDeviceSupport => "Xcode device support"@,
            Category::XcodeCaches => "Xcode caches"@,
            Category::InstrumentsTraces => "Instruments traces"@,
            Category::MacOsCaches => "macOS Caches"@,
            Category::IphoneBackups => "iPhone Backups"@,
            Category::AppWebCache => "App web caches"@,
            Category::ContainerCaches => "App container caches"@,
            Category::ExpensiveCache => "Expensive caches"@,
            Category::CloudMirror => "Cloud storage mirror"@,
            Category::WindowsTemp => "Temp files"@,
            Category::WindowsUpdate => "Windows Update cache"@,
            Category::WindowsOld => "Previous Windows install"@,
            Category::RecycleBin => "Recycle Bin"@,
            Category::CrashDumps => "Crash dumps & error reports"@,
            Category::WindowsCaches => "Windows caches"@,
            Category::ThumbnailCache => "Thumbnail & icon cache"@,
            Category::InstallerCache => "Installer payload cache"@,
            Category::BrowserCache => "Browser caches"@,
            Category::NpmCache => "npm cache"@,
            Category::YarnPnpmCache => "yarn / pnpm store"@,
            Category::HomebrewCache => "Homebrew cache"@,
            Category::UvCache => "uv cache"@,
            Category::PipCache => "pip cache"@,
            Category::NugetCache => "NuGet packages"@,
            Category::CargoRegistry => "Cargo registry"@,
            Category::GradleCache => "Gradle cache"@,
            Category::MavenCache => "Maven repository"@,
            Category::GoModCache => "Go module cache"@,
            Category::IdeCache => "IDE caches"@,
            Category::DockerData => "Docker / WSL data"@,
            Category::AndroidSdk => "Android SDK"@,
            Category::AndroidEmulator => "Android emulator images"@,
        }
    }

    /// Deleting it costs a download or a rebuild, never data.
    pub open spec fn is_regenerable(self) -> bool {
        match self {
            Category::PythonEnv
            | Category::NextJs
            | Category::Nuxt
            | Category::SvelteKit
            | Category::CocoaPods
            | Category::XcodeDerivedData
            | Category::IosSimulators
            | Category::SimulatorRuntimes
            | Category::IphoneBackups
            | Category::ExpensiveCache
            | Category::CloudMirror
            | Category::WindowsOld
            | Category::InstallerCache
            | Category::DockerData
            | Category::AndroidSdk
            | Category::AndroidEmulator => false,
            _ => true,
        }
    }

    /// The directory itself has to stay.
    pub open spec fn keeps_directory(self) -> bool {
        match self {
            Category::WindowsTemp
            | Category::WindowsUpdate
            | Category::RecycleBin
            | Category::CrashDumps
            | Category::WindowsCaches
            | Category::ThumbnailCache
            | Category::BrowserCache
            | Category::AppWebCache
            | Category::ContainerCaches
            | Category::ExpensiveCache => true,
            _ => false,
        }
    }

    /// The name of the category on the command line.
    pub open spec fn slug_text(self) -> Seq<char> {
        slug_of(self.label_text())
    }

    pub fn label(self) -> (r: &'static str)
        ensures
            r@ == self.label_text(),
    {
        match self {
            Category::RustTarget => "Rust target/",
            Category::NodeModules => "node_modules/",
            Category::PythonBytecode => "Python __pycache__",
            Category::PythonEnv => "Python virtualenv",
            Category::NextJs => "Next.js .next/",
            Category::Nuxt => "Nuxt .nuxt/",
            Category::SvelteKit => "SvelteKit .svelte-kit/",
            Category::CocoaPods => "CocoaPods Pods/",
            Category::SwiftPmBuild => "SwiftPM .build/",
            Category::DotNetBuild => ".NET bin/ + obj/",
            Category::VisualStudioCache => "Visual Studio .vs/",
            Category::GradleBuild => "Gradle build/",
            Category::XcodeDerivedData => "Xcode DerivedData",
            Category::XcTestDevices => "XCTest simulator clones",
            Category::IosSimulators => "iOS Simulators",
            Category::SimulatorRuntimes => "Simulator runtimes",
            Category::XcodeDeviceSupport => "Xcode device support",
            Category::XcodeCaches => "Xcode caches",
            Category::InstrumentsTraces => "Instruments traces",
            Category::MacOsCaches => "macOS Caches",
            Category::IphoneBackups => "iPhone Backups",
            Category::AppWebCache => "App web caches",
            Category::ContainerCaches => "App container caches",
            Category::ExpensiveCache => "Expensive caches",
            Category::CloudMirror => "Cloud storage mirror",
            Category::WindowsTemp => "Temp files",
            Category::WindowsUpdate => "Windows Update cache",
            Category::WindowsOld => "Previous Windows install",
            Category::RecycleBin => "Recycle Bin",
            Category::CrashDumps => "Crash dumps & error reports",
            Category::WindowsCaches => "Windows caches",
            Category::ThumbnailCache => "Thumbnail & icon cache",
            Category::InstallerCache => "Installer payload cache",
            Category::BrowserCache => "Browser caches",
            Category::NpmCache => "npm cache",
            Category::YarnPnpmCache => "yarn / pnpm store",
            Category::HomebrewCache => "Homebrew cache",
            Category::UvCache => "uv cache",
            Category::PipCache => "pip cache",
            Category::NugetCache => "NuGet packages",
            Category::CargoRegistry => "Cargo registry",
            Category::GradleCache => "Gradle cache",
            Category::MavenCache => "Maven repository",
            Category::GoModCache => "Go module cache",
            Category::IdeCache => "IDE caches",
            Category::DockerData => "Docker / WSL data",
            Category::AndroidSdk => "Android SDK",
            Category::AndroidEmulator => "Android emulator images",
        }
    }

    /// Regenerable on demand: deleting costs a re-download or a rebuild, never
    /// data. Everything else is reported but flagged for review.
    pub fn safe_to_delete(self) -> (r: bool)
        ensures
            r == self.is_regenerable(),
    {
        match self {
            Category::RustTarget
            | Category::NodeModules
            | Category::PythonBytecode
            | Category::SwiftPmBuild
            | Category::DotNetBuild
            | Category::VisualStudioCache
            | Category::GradleBuild
            | Category::XcTestDevices
            | Category::XcodeDeviceSupport
            | Category::XcodeCaches
            | Category::InstrumentsTraces
            | Category::MacOsCaches
            | Category::AppWebCache
            | Category::ContainerCaches
            | Category::WindowsTemp
            | Category::WindowsUpdate
            | Category::RecycleBin
            | Category::CrashDumps
            | Category::WindowsCaches
            | Category::ThumbnailCache
            | Category::BrowserCache
            | Category::NpmCache
            | Category::YarnPnpmCache
            | Category::HomebrewCache
            | Category::UvCache
            | Category::PipCache
            | Category::NugetCache
            | Category::CargoRegistry
            | Category::GradleCache
            | Category::MavenCache
            | Category::GoModCache
            | Category::IdeCache => true,
            _ => false,
        }
    }

    /// CLI-facing name, derived from the label so the two cannot drift apart.
    /// "Browser caches" becomes "browser-caches".
    pub fn slug(self) -> (r: String)
        ensures
            r@ == self.slug_text(),
    {
        let label = chars_of(self.label());
        let mut out = String::new();
        let mut in_word = false;
        for i in 0..label.len()
            invariant
                label@ == self.label_text(),
                in_word == (i > 0 && is_alnum(label@[i - 1])),
                out@ == slug_of(label@.take(i as int)),
        {
            let c = label[i];
            let ghost seen = label@.take(i as int);
            let ghost more = label@.take(i + 1);
            let ghost words = words_of(seen);
            assert(more.drop_last() =~= seen);
            proof {
                lemma_words(seen);
            }
            if alnum(c) {
                if in_word {
                    out.push(lower(c));
                    proof {
                        lemma_joined_extend(words, ascii_lower(c), seq!['-']);
                    }
                } else {
                    proof {
                        lemma_joined_push(words, seq![ascii_lower(c)], seq!['-']);
                        lemma_joined_empty(words, seq!['-']);
                    }
                    let ghost had = out@;
                    if !out.as_str().is_empty() {
                        out.push('-');
                        assert(out@ =~= had + seq!['-']);
                    }
                    let ghost dashed = out@;
                    out.push(lower(c));
                    assert(out@ =~= dashed + seq![ascii_lower(c)]);
                    assert(out@ =~= slug_of(more));
                }
                in_word = true;
            } else {
                in_word = false;
            }
        }
        assert(label@.take(label@.len() as int) =~= label@);
        out
    }

    /// Live directories the OS and running apps expect to keep existing: empty
    /// them instead of removing the folder itself.
    pub fn delete_contents_only(self) -> (r: bool)
        ensures
            r == self.keeps_directory(),
    {
        match self {
            Category::WindowsTemp
            | Category::WindowsUpdate
            | Category::RecycleBin
            | Category::CrashDumps
            | Category::WindowsCaches
            | Category::ThumbnailCache
            | Category::BrowserCache
            | Category::AppWebCache
            | Category::ContainerCaches
            | Category::ExpensiveCache => true,
            _ => false,
        }
    }
}

fn alnum(c: char) -> (r: bool)
    ensures
        r == is_alnum(c),
{
    ('a' <= c && c <= 'z') || ('A' <= c && c <= 'Z') || ('0' <= c && c <= '9')
}

// ---------------------------------------------------------------------------
// Words and slugs
// ---------------------------------------------------------------------------

proof fn lemma_words(s: Seq<char>)
    ensures
        s.len() > 0 && is_alnum(s.last()) ==> words_of(s).len() > 0,
        forall|i: int| 0 <= i < words_of(s).len() ==> (#[trigger] words_of(s)[i]).len() > 0,
    decreases s.len(),
{
    if s.len() > 0 {
        let front = s.drop_last();
        lemma_words(front);
        if s.len() >= 2 && is_alnum(s.last()) && is_alnum(s[s.len() - 2]) {
            assert(is_alnum(front.last()));
            assert forall|i: int| 0 <= i < words_of(s).len() implies (#[trigger] words_of(
                s,
            )[i]).len() > 0 by {
                if i < words_of(front).len() - 1 {
                    assert(words_of(s)[i] == words_of(front)[i]);
                }
            }
        } else {
            assert forall|i: int| 0 <= i < words_of(s).len() implies (#[trigger] words_of(
                s,
            )[i]).len() > 0 by {
                if i < words_of(front).len() {
                    assert(words_of(s)[i] == words_of(front)[i]);
                }
            }
        }
    }
}

proof fn lemma_joined_push(words: Seq<Seq<char>>, word: Seq<char>, sep: Seq<char>)
    ensures
        joined(words.push(word), sep) == if words.len() == 0 {
            word
        } else {
            joined(words, sep) + sep + word
        },
{
    assert(words.push(word).drop_last() =~= words);
}

proof fn lemma_joined_extend(words: Seq<Seq<char>>, c: char, sep: Seq<char>)
    requires
        words.len() > 0,
    ensures
        joined(words.drop_last().push(words.last().push(c)), sep) == joined(words, sep).push(c),
{
    lemma_joined_push(words.drop_last(), words.last().push(c), sep);
    if words.len() > 1 {
        let front = joined(words.drop_last(), sep) + sep;
        assert(front + words.last().push(c) =~= (front + words.last()).push(c));
    }
}

proof fn lemma_joined_empty(words: Seq<Seq<char>>, sep: Seq<char>)
    requires
        forall|i: int| 0 <= i < words.len() ==> (#[trigger] words[i]).len() > 0,
    ensures
        joined(words, sep).len() == 0 <==> words.len() == 0,
{
}

/// The ASCII letters and digits of `s`, in lower case.
pub open spec fn letters_of(s: Seq<char>) -> Seq<char>
    decreases s.len(),
{
    if s.len() == 0 {
        Seq::empty()
    } else if is_alnum(s[0]) {
        seq![ascii_lower(s[0])] + letters_of(s.drop_first())
    } else {
        letters_of(s.drop_first())
    }
}

proof fn lemma_letters_concat(a: Seq<char>, b: Seq<char>)
    ensures
        letters_of(a + b) == letters_of(a) + letters_of(b),
    decreases a.len(),
{
    if a.len() == 0 {
        assert(a + b =~= b);
        assert(letters_of(a) + letters_of(b) =~= letters_of(b));
    } else {
        lemma_letters_concat(a.drop_first(), b);
        assert((a + b).drop_first() =~= a.drop_first() + b);
        assert(letters_of(a + b) =~= letters_of(a) + letters_of(b));
    }
}

proof fn lemma_letters_of_one(c: char)
    ensures
        letters_of(seq![c]) == if is_alnum(c) {
            seq![ascii_lower(c)]
        } else {
            Seq::empty()
        },
        is_alnum(c) ==> letters_of(seq![ascii_lower(c)]) == seq![ascii_lower(c)],
{
    assert(seq![c].drop_first() =~= Seq::empty());
    assert(letters_of(seq![c].drop_first()) =~= Seq::empty());
    assert(letters_of(seq![c]) =~= if is_alnum(c) {
        seq![ascii_lower(c)]
    } else {
        Seq::empty()
    });
    let d = ascii_lower(c);
    assert(seq![d].drop_first() =~= Seq::empty());
    if is_alnum(c) {
        assert(is_alnum(d) && ascii_lower(d) == d);
        assert(letters_of(seq![d]) =~= seq![d]);
    }
}

/// A slug keeps the letters and digits of its label, and their order.
proof fn lemma_slug_letters(s: Seq<char>)
    ensures
        letters_of(slug_of(s)) == letters_of(s),
    decreases s.len(),
{
    if s.len() > 0 {
        let front = s.drop_last();
        let c = s.last();
        let words = words_of(front);
        let d = ascii_lower(c);
        lemma_slug_letters(front);
        assert(s =~= front + seq![c]);
        lemma_letters_concat(front, seq![c]);
        lemma_letters_of_one(c);
        lemma_words(front);
        if !is_alnum(c) {
            assert(letters_of(front) + Seq::empty() =~= letters_of(front));
        } else if s.len() >= 2 && is_alnum(s[s.len() - 2]) {
            assert(is_alnum(front.last()));
            lemma_joined_extend(words, d, seq!['-']);
            assert(slug_of(s) =~= slug_of(front) + seq![d]);
            lemma_letters_concat(slug_of(front), seq![d]);
        } else {
            lemma_joined_push(words, seq![d], seq!['-']);
            if words.len() > 0 {
                lemma_letters_concat(slug_of(front) + seq!['-'], seq![d]);
                lemma_letters_concat(slug_of(front), seq!['-']);
                lemma_letters_of_one('-');
                assert(letters_of(slug_of(front)) + Seq::<char>::empty() =~= letters_of(
                    slug_of(front),
                ));
            } else {
                assert(slug_of(front) =~= Seq::empty());
                assert(letters_of(front) + seq![d] =~= seq![d]);
            }
        }
    }
}

/// The category whose label has these letters, as far as they tell the labels
/// apart.
spec fn category_with(s: Seq<char>) -> Category {
    if s[0] == 'r' {
        if s[1] == 'u' {
            Category::RustTarget
        } else {
            Category::RecycleBin
        }
    } else if s[0] == 'n' {
        if s[1] == 'o' {
            Category::NodeModules
        } else if s[1] == 'e' {
            if s[2] == 'x' {
                Category::NextJs
            } else {
                Category::DotNetBuild
            }
        } else if s[1] == 'u' {
            if s[2] == 'x' {
                Category::Nuxt
            } else {
                Category::NugetCache
            }
        } else {
            Category::NpmCache
        }
    } else if s[0] == 'p' {
        if s[1] == 'y' {
            if s[6] == 'p' {
                Category::PythonBytecode
            } else {
                Category::PythonEnv
            }
        } else if s[1] == 'r' {
            Category::WindowsOld
        } else {
            Category::PipCache
        }
    } else if s[0] == 's' {
        if s[1] == 'v' {
            Category::SvelteKit
        } else if s[1] == 'w' {
            Category::SwiftPmBuild
        } else {
            Category::SimulatorRuntimes
        }
    } else if s[0] == 'c' {
        if s[1] == 'o' {
            Category::CocoaPods
        } else if s[1] == 'l' {
            Category::CloudMirror
        } else if s[1] == 'r' {
            Category::CrashDumps
        } else {
            Category::CargoRegistry
        }
    } else if s[0] == 'v' {
        Category::VisualStudioCache
    } else if s[0] == 'g' {
        if s[1] == 'r' {
            if s[6] == 'b' {
                Category::GradleBuild
            } else {
                Category::GradleCache
            }
        } else {
            Category::GoModCache
        }
    } else if s[0] == 'x' {
        if s[2] == 'o' {
            if s[5] == 'd' {
                if s[7] == 'r' {
                    Category::XcodeDerivedData
                } else {
                    Category::XcodeDeviceSupport
                }
            } else {
                Category::XcodeCaches
            }
        } else {
            Category::XcTestDevices
        }
    } else if s[0] == 'i' {
        if s[1] == 'o' {
            Category::IosSimulators
        } else if s[1] == 'n' {
            if s[4] == 'r' {
                Category::InstrumentsTraces
            } else {
                Category::InstallerCache
            }
        } else if s[1] == 'p' {
            Category::IphoneBackups
        } else {
            Category::IdeCache
        }
    } else if s[0] == 'm' {
        if s[2] == 'c' {
            Category::MacOsCaches
        } else {
            Category::MavenCache
        }
    } else if s[0] == 'a' {
        if s[1] == 'p' {
            if s[3] == 'w' {
                Category::AppWebCache
            } else {
                Category::ContainerCaches
            }
        } else {
            if s[7] == 's' {
                Category::AndroidSdk
            } else {
                Category::AndroidEmulator
            }
        }
    } else if s[0] == 'e' {
        Category::ExpensiveCache
    } else if s[0] == 't' {
        if s[1] == 'e' {
            Category::WindowsTemp
        } else {
            Category::ThumbnailCache
        }
    } else if s[0] == 'w' {
        if s[7] == 'u' {
            Category::WindowsUpdate
        } else {
            Category::WindowsCaches
        }
    } else if s[0] == 'b' {
        Category::BrowserCache
    } else if s[0] == 'y' {
        Category::YarnPnpmCache
    } else if s[0] == 'h' {
        Category::HomebrewCache
    } else if s[0] == 'u' {
        Category::UvCache
    } else {
        Category::DockerData
    }
}

proof fn lemma_label_letters(c: Category)
    ensures
        category_with(letters_of(c.label_text())) == c,
{
    reveal_with_fuel(letters_of, 12);
    match c {
        Category::RustTarget => {
            reveal_strlit("Rust target/");
        },
        Category::NodeModules => {
            reveal_strlit("node_modules/");
        },
        Category::PythonBytecode => {
            reveal_strlit("Python __pycache__");
        },
        Category::PythonEnv => {
            reveal_strlit("Python virtualenv");
        },
        Category::NextJs => {
            reveal_strlit("Next.js .next/");
        },
        Category::Nuxt => {
            reveal_strlit("Nuxt .nuxt/");
        },
        Category::SvelteKit => {
            reveal_strlit("SvelteKit .svelte-kit/");
        },
        Category::CocoaPods => {
            reveal_strlit("CocoaPods Pods/");
        },
        Category::SwiftPmBuild => {
            reveal_strlit("SwiftPM .build/");
        },
        Category::DotNetBuild => {
            reveal_strlit(".NET bin/ + obj/");
        },
        Category::VisualStudioCache => {
            reveal_strlit("Visual Studio .vs/");
        },
        Category::GradleBuild => {
            reveal_strlit("Gradle build/");
        },
        Category::XcodeDerivedData => {
            reveal_strlit("Xcode DerivedData");
        },
        Category::XcTestDevices => {
            reveal_strlit("XCTest simulator clones");
        },
        Category::IosSimulators => {
            reveal_strlit("iOS Simulators");
        },
        Category::SimulatorRuntimes => {
            reveal_strlit("Simulator runtimes");
        },
        Category::XcodeDeviceSupport => {
            reveal_strlit("Xcode device support");
        },
        Category::XcodeCaches => {
            reveal_strlit("Xcode caches");
        },
        Category::InstrumentsTraces => {
            reveal_strlit("Instruments traces");
        },
        Category::MacOsCaches => {
            reveal_strlit("macOS Caches");
        },
        Category::IphoneBackups => {
            reveal_strlit("iPhone Backups");
        },
        Category::AppWebCache => {
            reveal_strlit("App web caches");
        },
        Category::ContainerCaches => {
            reveal_strlit("App container caches");
        },
        Category::ExpensiveCache => {
            reveal_strlit("Expensive caches");
        },
        Category::CloudMirror => {
            reveal_strlit("Cloud storage mirror");
        },
        Category::WindowsTemp => {
            reveal_strlit("Temp files");
        },
        Category::WindowsUpdate => {
            reveal_strlit("Windows Update cache");
        },
        Category::WindowsOld => {
            reveal_strlit("Previous Windows install");
        },
        Category::RecycleBin => {
            reveal_strlit("Recycle Bin");
        },
        Category::CrashDumps => {
            reveal_strlit("Crash dumps & error reports");
        },
        Category::WindowsCaches => {
            reveal_strlit("Windows caches");
        },
        Category::ThumbnailCache => {
            reveal_strlit("Thumbnail & icon cache");
        },
        Category::InstallerCache => {
            reveal_strlit("Installer payload cache");
        },
        Category::BrowserCache => {
            reveal_strlit("Browser caches");
        },
        Category::NpmCache => {
            reveal_strlit("npm cache");
        },
        Category::YarnPnpmCache => {
            reveal_strlit("yarn / pnpm store");
        },
        Category::HomebrewCache => {
            reveal_strlit("Homebrew cache");
        },
        Category::UvCache => {
            reveal_strlit("uv cache");
        },
        Category::PipCache => {
            reveal_strlit("pip cache");
        },
        Category::NugetCache => {
            reveal_strlit("NuGet packages");
        },
        Category::CargoRegistry => {
            reveal_strlit("Cargo registry");
        },
        Category::GradleCache => {
            reveal_strlit("Gradle cache");
        },
        Category::MavenCache => {
            reveal_strlit("Maven repository");
        },
        Category::GoModCache => {
            reveal_strlit("Go module cache");
        },
        Category::IdeCache => {
            reveal_strlit("IDE caches");
        },
        Category::DockerData => {
            reveal_strlit("Docker / WSL data");
        },
        Category::AndroidSdk => {
            reveal_strlit("Android SDK");
        },
        Category::AndroidEmulator => {
            reveal_strlit("Android emulator images");
        },
    }
}

// ---------------------------------------------------------------------------
// Laws
// ---------------------------------------------------------------------------

/// No two categories share a slug.
pub proof fn slugs_are_unique(a: Category, b: Category)
    ensures
        a.slug_text() == b.slug_text() ==> a == b,
{
    lemma_slug_letters(a.label_text());
    lemma_slug_letters(b.label_text());
    lemma_label_letters(a);
    lemma_label_letters(b);
}

pub open spec fn is_slug_char(c: char) -> bool {
    'a' <= c <= 'z' || '0' <= c <= '9' || c == '-'
}

proof fn lemma_slug_chars(s: Seq<char>)
    ensures
        forall|i: int| 0 <= i < slug_of(s).len() ==> is_slug_char(#[trigger] slug_of(s)[i]),
        slug_of(s).len() > 0 ==> slug_of(s)[0] != '-' && slug_of(s).last() != '-',
        (exists|i: int| 0 <= i < s.len() && is_alnum(#[trigger] s[i])) ==> slug_of(s).len() > 0,
    decreases s.len(),
{
    if s.len() > 0 {
        let front = s.drop_last();
        let c = s.last();
        let words = words_of(front);
        let d = ascii_lower(c);
        lemma_slug_chars(front);
        lemma_words(front);
        lemma_joined_empty(words, seq!['-']);
        if !is_alnum(c) {
            assert forall|i: int| 0 <= i < s.len() && is_alnum(#[trigger] s[i]) implies slug_of(
                s,
            ).len() > 0 by {
                assert(front[i] == s[i]);
            }
        } else if s.len() >= 2 && is_alnum(s[s.len() - 2]) {
            assert(is_alnum(front.last()));
            lemma_joined_extend(words, d, seq!['-']);
            assert(slug_of(s) =~= slug_of(front).push(d));
        } else {
            lemma_joined_push(words, seq![d], seq!['-']);
        }
    }
}

proof fn lemma_slug_dashes(s: Seq<char>, i: int)
    requires
        0 <= i < slug_of(s).len() - 1,
    ensures
        slug_of(s)[i] != '-' || slug_of(s)[i + 1] != '-',
    decreases s.len(),
{
    let front = s.drop_last();
    let had = slug_of(front);
    let words = words_of(front);
    let c = s.last();
    let d = ascii_lower(c);
    if s.len() == 0 {
        assert(slug_of(s).len() == 0);
    } else if !is_alnum(c) {
        lemma_slug_dashes(front, i);
    } else {
        lemma_slug_chars(front);
        lemma_words(front);
        lemma_joined_empty(words, seq!['-']);
        assert(d != '-');
        if s.len() >= 2 && is_alnum(s[s.len() - 2]) {
            assert(is_alnum(front.last()));
            lemma_joined_extend(words, d, seq!['-']);
            assert(slug_of(s) =~= had.push(d));
        } else {
            lemma_joined_push(words, seq![d], seq!['-']);
            assert(words.len() > 0 ==> slug_of(s) =~= had.push('-').push(d));
        }
        if i + 1 < had.len() {
            lemma_slug_dashes(front, i);
        }
    }
}

/// A slug can be typed without quoting: it is not empty, holds lower-case
/// letters, digits and dashes only, neither starts nor ends with a dash, and
/// never has two of them in a row.
pub proof fn slugs_are_cli_safe(c: Category)
    ensures
        forall|i: int|
            0 <= i < c.slug_text().len() - 1 ==> (#[trigger] c.slug_text()[i]) != '-'
                || c.slug_text()[i + 1] != '-',
        c.slug_text().len() > 0,
        c.slug_text()[0] != '-',
        c.slug_text().last() != '-',
        forall|i: int|
            0 <= i < c.slug_text().len() ==> is_slug_char(#[trigger] c.slug_text()[i]),
{
    lemma_slug_chars(c.label_text());
    assert forall|i: int| 0 <= i < c.slug_text().len() - 1 implies (#[trigger] c.slug_text()[i])
        != '-' || c.slug_text()[i + 1] != '-' by {
        lemma_slug_dashes(c.label_text(), i);
    }
    assert(exists|i: int|
        0 <= i < c.label_text().len() && is_alnum(#[trigger] c.label_text()[i])) by {
        match c {
            Category::RustTarget => {
                reveal_strlit("Rust target/");
                assert(is_alnum(c.label_text()[0]));
            },
            Category::NodeModules => {
                reveal_strlit("node_modules/");
                assert(is_alnum(c.label_text()[0]));
            },
            Category::PythonBytecode => {
                reveal_strlit("Python __pycache__");
                assert(is_alnum(c.label_text()[0]));
            },
            Category::PythonEnv => {
                reveal_strlit("Python virtualenv");
                assert(is_alnum(c.label_text()[0]));
            },
            Category::NextJs => {
                reveal_strlit("Next.js .next/");
                assert(is_alnum(c.label_text()[0]));
            },
            Category::Nuxt => {
                reveal_strlit("Nuxt .nuxt/");
                assert(is_alnum(c.label_text()[0]));
            },
            Category::SvelteKit => {
                reveal_strlit("SvelteKit .svelte-kit/");
                assert(is_alnum(c.label_text()[0]));
            },
            Category::CocoaPods => {
                reveal_strlit("CocoaPods Pods/");
                assert(is_alnum(c.label_text()[0]));
            },
            Category::SwiftPmBuild => {
                reveal_strlit("SwiftPM .build/");
                assert(is_alnum(c.label_text()[0]));
            },
            Category::DotNetBuild => {
                reveal_strlit(".NET bin/ + obj/");
                assert(is_alnum(c.label_text()[1]));
            },
            Category::VisualStudioCache => {
                reveal_strlit("Visual Studio .vs/");
                assert(is_alnum(c.label_text()[0]));
            },
            Category::GradleBuild => {
                reveal_strlit("Gradle build/");
                assert(is_alnum(c.label_text()[0]));
            },
            Category::XcodeDerivedData => {
                reveal_strlit("Xcode DerivedData");
                assert(is_alnum(c.label_text()[0]));
            },
            Category::XcTestDevices => {
                reveal_strlit("XCTest simulator clones");
                assert(is_alnum(c.label_text()[0]));
            },
            Category::IosSimulators => {
                reveal_strlit("iOS Simulators");
                assert(is_alnum(c.label_text()[0]));
            },
            Category::SimulatorRuntimes => {
                reveal_strlit("Simulator runtimes");
                assert(is_alnum(c.label_text()[0]));
            },
            Category::XcodeDeviceSupport => {
                reveal_strlit("Xcode device support");
                assert(is_alnum(c.label_text()[0]));
            },
            Category::XcodeCaches => {
                reveal_strlit("Xcode caches");
                assert(is_alnum(c.label_text()[0]));
            },
            Category::InstrumentsTraces => {
                reveal_strlit("Instruments traces");
                assert(is_alnum(c.label_text()[0]));
            },
            Category::MacOsCaches => {
                reveal_strlit("macOS Caches");
                assert(is_alnum(c.label_text()[0]));
            },
            Category::IphoneBackups => {
                reveal_strlit("iPhone Backups");
                assert(is_alnum(c.label_text()[0]));
            },
            Category::AppWebCache => {
                reveal_strlit("App web caches");
                assert(is_alnum(c.label_text()[0]));
            },
            Category::ContainerCaches => {
                reveal_strlit("App container caches");
                assert(is_alnum(c.label_text()[0]));
            },
            Category::ExpensiveCache => {
                reveal_strlit("Expensive caches");
                assert(is_alnum(c.label_text()[0]));
            },
            Category::CloudMirror => {
                reveal_strlit("Cloud storage mirror");
                assert(is_alnum(c.label_text()[0]));
            },
            Category::WindowsTemp => {
                reveal_strlit("Temp files");
                assert(is_alnum(c.label_text()[0]));
            },
            Category::WindowsUpdate => {
                reveal_strlit("Windows Update cache");
                assert(is_alnum(c.label_text()[0]));
            },
            Category::WindowsOld => {
                reveal_strlit("Previous Windows install");
                assert(is_alnum(c.label_text()[0]));
            },
            Category::RecycleBin => {
                reveal_strlit("Recycle Bin");
                assert(is_alnum(c.label_text()[0]));
            },
            Category::CrashDumps => {
                reveal_strlit("Crash dumps & error reports");
                assert(is_alnum(c.label_text()[0]));
            },
            Category::WindowsCaches => {
                reveal_strlit("Windows caches");
                assert(is_alnum(c.label_text()[0]));
            },
            Category::ThumbnailCache => {
                reveal_strlit("Thumbnail & icon cache");
                assert(is_alnum(c.label_text()[0]));
            },
            Category::InstallerCache => {
                reveal_strlit("Installer payload cache");
                assert(is_alnum(c.label_text()[0]));
            },
            Category::BrowserCache => {
                reveal_strlit("Browser caches");
                assert(is_alnum(c.label_text()[0]));
            },
            Category::NpmCache => {
                reveal_strlit("npm cache");
                assert(is_alnum(c.label_text()[0]));
            },
            Category::YarnPnpmCache => {
                reveal_strlit("yarn / pnpm store");
                assert(is_alnum(c.label_text()[0]));
            },
            Category::HomebrewCache => {
                reveal_strlit("Homebrew cache");
                assert(is_alnum(c.label_text()[0]));
            },
            Category::UvCache => {
                reveal_strlit("uv cache");
                assert(is_alnum(c.label_text()[0]));
            },
            Category::PipCache => {
                reveal_strlit("pip cache");
                assert(is_alnum(c.label_text()[0]));
            },
            Category::NugetCache => {
                reveal_strlit("NuGet packages");
                assert(is_alnum(c.label_text()[0]));
            },
            Category::CargoRegistry => {
                reveal_strlit("Cargo registry");
                assert(is_alnum(c.label_text()[0]));
            },
            Category::GradleCache => {
                reveal_strlit("Gradle cache");
                assert(is_alnum(c.label_text()[0]));
            },
            Category::MavenCache => {
                reveal_strlit("Maven repository");
                assert(is_alnum(c.label_text()[0]));
            },
            Category::GoModCache => {
                reveal_strlit("Go module cache");
                assert(is_alnum(c.label_text()[0]));
            },
            Category::IdeCache => {
                reveal_strlit("IDE caches");
                assert(is_alnum(c.label_text()[0]));
            },
            Category::DockerData => {
                reveal_strlit("Docker / WSL data");
                assert(is_alnum(c.label_text()[0]));
            },
            Category::AndroidSdk => {
                reveal_strlit("Android SDK");
                assert(is_alnum(c.label_text()[0]));
            },
            Category::AndroidEmulator => {
                reveal_strlit("Android emulator images");
                assert(is_alnum(c.label_text()[0]));
            },
        }
    }
}

/// Virtualenvs, framework builds, DerivedData, simulators and their runtimes,
/// backups, mirrors, what costs hours to rebuild, what repairs and uninstalls,
/// and the payloads that hold real state are for review.
pub proof fn what_holds_real_state_is_for_review(cat: Category)
    requires
        cat == Category::PythonEnv
            || cat == Category::NextJs
            || cat == Category::Nuxt
            || cat == Category::SvelteKit
            || cat == Category::CocoaPods
            || cat == Category::XcodeDerivedData
            || cat == Category::IosSimulators
            || cat == Category::SimulatorRuntimes
            || cat == Category::IphoneBackups
            || cat == Category::ExpensiveCache
            || cat == Category::CloudMirror
            || cat == Category::WindowsOld
            || cat == Category::InstallerCache
            || cat == Category::DockerData
            || cat == Category::AndroidSdk
            || cat == Category::AndroidEmulator,
    ensures
        !cat.is_regenerable(),
{
}

/// Everything else comes back on demand.
pub proof fn what_comes_back_on_demand_is_regenerable(cat: Category)
    requires
        cat == Category::RustTarget
            || cat == Category::NodeModules
            || cat == Category::PythonBytecode
            || cat == Category::SwiftPmBuild
            || cat == Category::DotNetBuild
            || cat == Category::VisualStudioCache
            || cat == Category::GradleBuild
            || cat == Category::XcTestDevices
            || cat == Category::XcodeDeviceSupport
            || cat == Category::XcodeCaches
            || cat == Category::InstrumentsTraces
            || cat == Category::MacOsCaches
            || cat == Category::AppWebCache
            || cat == Category::ContainerCaches
            || cat == Category::WindowsTemp
            || cat == Category::WindowsUpdate
            || cat == Category::RecycleBin
            || cat == Category::CrashDumps
            || cat == Category::WindowsCaches
            || cat == Category::ThumbnailCache
            || cat == Category::BrowserCache
            || cat == Category::NpmCache
            || cat == Category::YarnPnpmCache
            || cat == Category::HomebrewCache
            || cat == Category::UvCache
            || cat == Category::PipCache
            || cat == Category::NugetCache
            || cat == Category::CargoRegistry
            || cat == Category::GradleCache
            || cat == Category::MavenCache
            || cat == Category::GoModCache
            || cat == Category::IdeCache,
    ensures
        cat.is_regenerable(),
{
}

/// The directories that the OS and running apps expect to keep existing stay,
/// and no others do.
pub proof fn only_live_directories_stay(cat: Category)
    ensures
        cat.keeps_directory() <==> (cat == Category::WindowsTemp
            || cat == Category::WindowsUpdate
            || cat == Category::RecycleBin
            || cat == Category::CrashDumps
            || cat == Category::WindowsCaches
            || cat == Category::ThumbnailCache
            || cat == Category::BrowserCache
            || cat == Category::AppWebCache
            || cat == Category::ContainerCaches
            || cat == Category::ExpensiveCache),
{
}

/// What each category is called.
pub proof fn categories_are_called_by_name(cat: Category)
    ensures
        cat == Category::RustTarget ==> cat.label_text() == "Rust target/"@,
        cat == Category::NodeModules ==> cat.label_text() == "node_modules/"@,
        cat == Category::PythonBytecode ==> cat.label_text() == "Python __pycache__"@,
        cat == Category::PythonEnv ==> cat.label_text() == "Python virtualenv"@,
        cat == Category::NextJs ==> cat.label_text() == "Next.js .next/"@,
        cat == Category::Nuxt ==> cat.label_text() == "Nuxt .nuxt/"@,
        cat == Category::SvelteKit ==> cat.label_text() == "SvelteKit .svelte-kit/"@,
        cat == Category::CocoaPods ==> cat.label_text() == "CocoaPods Pods/"@,
        cat == Category::SwiftPmBuild ==> cat.label_text() == "SwiftPM .build/"@,
        cat == Category::DotNetBuild ==> cat.label_text() == ".NET bin/ + obj/"@,
        cat == Category::VisualStudioCache ==> cat.label_text() == "Visual Studio .vs/"@,
        cat == Category::GradleBuild ==> cat.label_text() == "Gradle build/"@,
        cat == Category::XcodeDerivedData ==> cat.label_text() == "Xcode DerivedData"@,
        cat == Category::XcTestDevices ==> cat.label_text() == "XCTest simulator clones"@,
        cat == Category::IosSimulators ==> cat.label_text() == "iOS Simulators"@,
        cat == Category::SimulatorRuntimes ==> cat.label_text() == "Simulator runtimes"@,
        cat == Category::XcodeDeviceSupport ==> cat.label_text() == "Xcode device support"@,
        cat == Category::XcodeCaches ==> cat.label_text() == "Xcode caches"@,
        cat == Category::InstrumentsTraces ==> cat.label_text() == "Instruments traces"@,
        cat == Category::MacOsCaches ==> cat.label_text() == "macOS Caches"@,
        cat == Category::IphoneBackups ==> cat.label_text() == "iPhone Backups"@,
        cat == Category::AppWebCache ==> cat.label_text() == "App web caches"@,
        cat == Category::ContainerCaches ==> cat.label_text() == "App container caches"@,
        cat == Category::ExpensiveCache ==> cat.label_text() == "Expensive caches"@,
        cat == Category::CloudMirror ==> cat.label_text() == "Cloud storage mirror"@,
        cat == Category::WindowsTemp ==> cat.label_text() == "Temp files"@,
        cat == Category::WindowsUpdate ==> cat.label_text() == "Windows Update cache"@,
        cat == Category::WindowsOld ==> cat.label_text() == "Previous Windows install"@,
        cat == Category::RecycleBin ==> cat.label_text() == "Recycle Bin"@,
        cat == Category::CrashDumps ==> cat.label_text() == "Crash dumps & error reports"@,
        cat == Category::WindowsCaches ==> cat.label_text() == "Windows caches"@,
        cat == Category::ThumbnailCache ==> cat.label_text() == "Thumbnail & icon cache"@,
        cat == Category::InstallerCache ==> cat.label_text() == "Installer payload cache"@,
        cat == Category::BrowserCache ==> cat.label_text() == "Browser caches"@,
        cat == Category::NpmCache ==> cat.label_text() == "npm cache"@,
        cat == Category::YarnPnpmCache ==> cat.label_text() == "yarn / pnpm store"@,
        cat == Category::HomebrewCache ==> cat.label_text() == "Homebrew cache"@,
        cat == Category::UvCache ==> cat.label_text() == "uv cache"@,
        cat == Category::PipCache ==> cat.label_text() == "pip cache"@,
        cat == Category::NugetCache ==> cat.label_text() == "NuGet packages"@,
        cat == Category::CargoRegistry ==> cat.label_text() == "Cargo registry"@,
        cat == Category::GradleCache ==> cat.label_text() == "Gradle cache"@,
        cat == Category::MavenCache ==> cat.label_text() == "Maven repository"@,
        cat == Category::GoModCache ==> cat.label_text() == "Go module cache"@,
        cat == Category::IdeCache ==> cat.label_text() == "IDE caches"@,
        cat == Category::DockerData ==> cat.label_text() == "Docker / WSL data"@,
        cat == Category::AndroidSdk ==> cat.label_text() == "Android SDK"@,
        cat == Category::AndroidEmulator ==> cat.label_text() == "Android emulator images"@,
{
}

/// The letters and digits of a slug are those of its label, in lower case and
/// in order.
pub proof fn a_slug_spells_its_label(cat: Category)
    ensures
        letters_of(cat.slug_text()) == letters_of(cat.label_text()),
{
    lemma_slug_letters(cat.label_text());
}

proof fn lemma_slug_words(s: Seq<char>, c: char)
    requires
        is_alnum(c),
        s.len() > 0,
    ensures
        is_alnum(s.last()) ==> slug_of(s.push(c)) == slug_of(s).push(ascii_lower(c)),
        !is_alnum(s.last()) && slug_of(s).len() > 0 ==> slug_of(s.push(c)) == slug_of(s).push(
            '-',
        ).push(ascii_lower(c)),
{
    let longer = s.push(c);
    let words = words_of(s);
    let d = ascii_lower(c);
    assert(longer.drop_last() =~= s);
    lemma_words(s);
    lemma_joined_empty(words, seq!['-']);
    if is_alnum(s.last()) {
        lemma_joined_extend(words, d, seq!['-']);
    } else {
        lemma_joined_push(words, seq![d], seq!['-']);
        assert(words.len() > 0 ==> joined(words, seq!['-']) + seq!['-'] + seq![d]
            =~= joined(words, seq!['-']).push('-').push(d));
    }
}

/// In a slug a letter follows the one before it directly where it did so in the
/// label, and behind a dash where anything else stood between them.
pub proof fn a_dash_stands_for_what_is_no_letter(label: Seq<char>, letter: char)
    requires
        ('a' <= letter <= 'z') || ('0' <= letter <= '9'),
        label.len() > 0,
        slug_of(label).len() > 0,
    ensures
        (('a' <= label.last() <= 'z') || ('A' <= label.last() <= 'Z') || ('0' <= label.last()
            <= '9')) ==> slug_of(label.push(letter)) == slug_of(label).push(letter),
        !(('a' <= label.last() <= 'z') || ('A' <= label.last() <= 'Z') || ('0' <= label.last()
            <= '9')) ==> slug_of(label.push(letter)) == slug_of(label).push('-').push(letter),
{
    lemma_slug_words(label, letter);
}

} // verus!
