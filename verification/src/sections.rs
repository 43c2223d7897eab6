//! The sections that categories are shown in, and the lists of categories that
//! the report and the cleaner go through.

use vstd::prelude::*;

use crate::category::Category;
use crate::found::{categories_size, files_size, lemma_categories_size, ScanResultView};
use crate::text::views;

verus! {

broadcast use crate::text::lemma_views_push;

/// A part of the report.
#[derive(Debug)]
pub struct Section {
    pub title: &'static str,
    pub cats: Vec<Category>,
}

#[verifier::ext_equal]
pub struct SectionView {
    pub title: Seq<char>,
    pub cats: Seq<Category>,
}

impl View for Section {
    type V = SectionView;

    open spec fn view(&self) -> SectionView {
        SectionView { title: self.title@, cats: self.cats@ }
    }
}

/// The single list of categories in display order. The cleaner walks it too, so
/// a category cannot be reported without being deletable or the reverse.
pub open spec fn sections() -> Seq<SectionView> {
    seq![
        SectionView {
            title: "BUILD ARTIFACTS"@,
            cats: seq![
                Category::RustTarget,
                Category::NodeModules,
                Category::PythonBytecode,
                Category::PythonEnv,
                Category::NextJs,
                Category::Nuxt,
                Category::SvelteKit,
                Category::CocoaPods,
                Category::SwiftPmBuild,
                Category::DotNetBuild,
                Category::VisualStudioCache,
                Category::GradleBuild,
            ],
        },
        SectionView {
            title: "MACOS & XCODE"@,
            cats: seq![
                Category::XcodeDerivedData,
                Category::XcTestDevices,
                Category::IosSimulators,
                Category::SimulatorRuntimes,
                Category::XcodeDeviceSupport,
                Category::XcodeCaches,
                Category::InstrumentsTraces,
                Category::MacOsCaches,
                Category::IphoneBackups,
            ],
        },
        SectionView {
            title: "APP DATA & CACHES"@,
            cats: seq![
                Category::AppWebCache,
                Category::ContainerCaches,
                Category::ExpensiveCache,
                Category::CloudMirror,
            ],
        },
        SectionView {
            title: "WINDOWS SYSTEM"@,
            cats: seq![
                Category::WindowsTemp,
                Category::WindowsUpdate,
                Category::WindowsOld,
                Category::RecycleBin,
                Category::CrashDumps,
                Category::WindowsCaches,
                Category::ThumbnailCache,
                Category::InstallerCache,
                Category::BrowserCache,
            ],
        },
        SectionView {
            title: "PACKAGE & TOOL CACHES"@,
            cats: seq![
                Category::NpmCache,
                Category::YarnPnpmCache,
                Category::HomebrewCache,
                Category::UvCache,
                Category::PipCache,
                Category::NugetCache,
                Category::CargoRegistry,
                Category::GradleCache,
                Category::MavenCache,
                Category::GoModCache,
                Category::IdeCache,
            ],
        },
        SectionView {
            title: "VMS, SDKS & CONTAINERS"@,
            cats: seq![
                Category::DockerData,
                Category::AndroidSdk,
                Category::AndroidEmulator,
            ],
        },
    ]
}

/// Every category in display order.
pub open spec fn category_list() -> Seq<Category> {
    seq![
        Category::RustTarget,
        Category::NodeModules,
        Category::PythonBytecode,
        Category::PythonEnv,
        Category::NextJs,
        Category::Nuxt,
        Category::SvelteKit,
        Category::CocoaPods,
        Category::SwiftPmBuild,
        Category::DotNetBuild,
        Category::VisualStudioCache,
        Category::GradleBuild,
        Category::XcodeDerivedData,
        Category::XcTestDevices,
        Category::IosSimulators,
        Category::SimulatorRuntimes,
        Category::XcodeDeviceSupport,
        Category::XcodeCaches,
        Category::InstrumentsTraces,
        Category::MacOsCaches,
        Category::IphoneBackups,
        Category::AppWebCache,
        Category::ContainerCaches,
        Category::ExpensiveCache,
        Category::CloudMirror,
        Category::WindowsTemp,
        Category::WindowsUpdate,
        Category::WindowsOld,
        Category::RecycleBin,
        Category::CrashDumps,
        Category::WindowsCaches,
        Category::ThumbnailCache,
        Category::InstallerCache,
        Category::BrowserCache,
        Category::NpmCache,
        Category::YarnPnpmCache,
        Category::HomebrewCache,
        Category::UvCache,
        Category::PipCache,
        Category::NugetCache,
        Category::CargoRegistry,
        Category::GradleCache,
        Category::MavenCache,
        Category::GoModCache,
        Category::IdeCache,
        Category::DockerData,
        Category::AndroidSdk,
        Category::AndroidEmulator,
    ]
}

/// The categories of these sections, in order.
pub open spec fn cats_of(sections: Seq<SectionView>) -> Seq<Category>
    decreases sections.len(),
{
    if sections.len() == 0 {
        Seq::empty()
    } else {
        cats_of(sections.drop_last()) + sections.last().cats
    }
}

pub fn section_cats() -> (r: Vec<Section>)
    ensures
        views(r@) == sections(),
{
    let r: Vec<Section> = vec![
        Section {
            title: "BUILD ARTIFACTS",
            cats: vec![
                Category::RustTarget,
                Category::NodeModules,
                Category::PythonBytecode,
                Category::PythonEnv,
                Category::NextJs,
                Category::Nuxt,
                Category::SvelteKit,
                Category::CocoaPods,
                Category::SwiftPmBuild,
                Category::DotNetBuild,
                Category::VisualStudioCache,
                Category::GradleBuild,
            ],
        },
        Section {
            title: "MACOS & XCODE",
            cats: vec![
                Category::XcodeDerivedData,
                Category::XcTestDevices,
                Category::IosSimulators,
                Category::SimulatorRuntimes,
                Category::XcodeDeviceSupport,
                Category::XcodeCaches,
                Category::InstrumentsTraces,
                Category::MacOsCaches,
                Category::IphoneBackups,
            ],
        },
        Section {
            title: "APP DATA & CACHES",
            cats: vec![
                Category::AppWebCache,
                Category::ContainerCaches,
                Category::ExpensiveCache,
                Category::CloudMirror,
            ],
        },
        Section {
            title: "WINDOWS SYSTEM",
            cats: vec![
                Category::WindowsTemp,
                Category::WindowsUpdate,
                Category::WindowsOld,
                Category::RecycleBin,
                Category::CrashDumps,
                Category::WindowsCaches,
                Category::ThumbnailCache,
                Category::InstallerCache,
                Category::BrowserCache,
            ],
        },
        Section {
            title: "PACKAGE & TOOL CACHES",
            cats: vec![
                Category::NpmCache,
                Category::YarnPnpmCache,
                Category::HomebrewCache,
                Category::UvCache,
                Category::PipCache,
                Category::NugetCache,
                Category::CargoRegistry,
                Category::GradleCache,
                Category::MavenCache,
                Category::GoModCache,
                Category::IdeCache,
            ],
        },
        Section {
            title: "VMS, SDKS & CONTAINERS",
            cats: vec![
                Category::DockerData,
                Category::AndroidSdk,
                Category::AndroidEmulator,
            ],
        },
    ];
    assert(views(r@) =~= sections());
    r
}

/// Every category in display order.
pub fn all_categories() -> (r: Vec<Category>)
    ensures
        r@ == category_list(),
        r@.len() == 48,
{
    let sections = section_cats();
    let ghost all = views(sections@);
    let mut out: Vec<Category> = Vec::new();
    assert(out@ =~= cats_of(all.take(0)));
    for section in it: sections
        invariant
            it.seq() == sections@,
            all == views(sections@),
            out@ == cats_of(all.take(it.index() as int)),
    {
        assert(all.take(it.index() + 1).drop_last() =~= all.take(it.index() as int));
        let mut cats = section.cats;
        out.append(&mut cats);
    }
    proof {
        assert(all.take(all.len() as int) =~= all);
        lemma_section_list();
    }
    out
}

proof fn lemma_section_list()
    ensures
        cats_of(sections()) == category_list(),
{
    let s = sections();
    reveal_with_fuel(cats_of, 7);
    assert(s.drop_last() =~= s.take(5));
    assert(s.take(5).drop_last() =~= s.take(4));
    assert(s.take(4).drop_last() =~= s.take(3));
    assert(s.take(3).drop_last() =~= s.take(2));
    assert(s.take(2).drop_last() =~= s.take(1));
    assert(s.take(1).drop_last() =~= s.take(0));
    assert(cats_of(s) =~= category_list());
}

// ---------------------------------------------------------------------------
// Laws
// ---------------------------------------------------------------------------

/// Where a category stands in display order.
pub open spec fn position(cat: Category) -> int {
    match cat {
        Category::RustTarget => 0,
        Category::NodeModules => 1,
        Category::PythonBytecode => 2,
        Category::PythonEnv => 3,
        Category::NextJs => 4,
        Category::Nuxt => 5,
        Category::SvelteKit => 6,
        Category::CocoaPods => 7,
        Category::SwiftPmBuild => 8,
        Category::DotNetBuild => 9,
        Category::VisualStudioCache => 10,
        Category::GradleBuild => 11,
        Category::XcodeDerivedData => 12,
        Category::XcTestDevices => 13,
        Category::IosSimulators => 14,
        Category::SimulatorRuntimes => 15,
        Category::XcodeDeviceSupport => 16,
        Category::XcodeCaches => 17,
        Category::InstrumentsTraces => 18,
        Category::MacOsCaches => 19,
        Category::IphoneBackups => 20,
        Category::AppWebCache => 21,
        Category::ContainerCaches => 22,
        Category::ExpensiveCache => 23,
        Category::CloudMirror => 24,
        Category::WindowsTemp => 25,
        Category::WindowsUpdate => 26,
        Category::WindowsOld => 27,
        Category::RecycleBin => 28,
        Category::CrashDumps => 29,
        Category::WindowsCaches => 30,
        Category::ThumbnailCache => 31,
        Category::InstallerCache => 32,
        Category::BrowserCache => 33,
        Category::NpmCache => 34,
        Category::YarnPnpmCache => 35,
        Category::HomebrewCache => 36,
        Category::UvCache => 37,
        Category::PipCache => 38,
        Category::NugetCache => 39,
        Category::CargoRegistry => 40,
        Category::GradleCache => 41,
        Category::MavenCache => 42,
        Category::GoModCache => 43,
        Category::IdeCache => 44,
        Category::DockerData => 45,
        Category::AndroidSdk => 46,
        Category::AndroidEmulator => 47,
    }
}

/// Every category stands in the list of sections, and none stands there twice.
pub proof fn every_category_is_shown_once()
    ensures
        cats_of(sections()) == category_list(),
        category_list().len() == 48,
        category_list().no_duplicates(),
        forall|cat: Category| #[trigger] category_list().contains(cat),
{
    lemma_section_list();
    let list = category_list();
    assert forall|cat: Category| #[trigger] list.contains(cat) by {
        assert(list[position(cat)] == cat);
    }
    assert forall|i: int, j: int| 0 <= i < list.len() && 0 <= j < list.len() && i != j implies
        list[i] != list[j] by {
        lemma_position(i);
        lemma_position(j);
    }
}

proof fn lemma_position(i: int)
    requires
        0 <= i < 48,
    ensures
        position(category_list()[i]) == i,
{
    let list = category_list();
    assert(position(list[0]) == 0);
    assert(position(list[1]) == 1);
    assert(position(list[2]) == 2);
    assert(position(list[3]) == 3);
    assert(position(list[4]) == 4);
    assert(position(list[5]) == 5);
    assert(position(list[6]) == 6);
    assert(position(list[7]) == 7);
    assert(position(list[8]) == 8);
    assert(position(list[9]) == 9);
    assert(position(list[10]) == 10);
    assert(position(list[11]) == 11);
    assert(position(list[12]) == 12);
    assert(position(list[13]) == 13);
    assert(position(list[14]) == 14);
    assert(position(list[15]) == 15);
    assert(position(list[16]) == 16);
    assert(position(list[17]) == 17);
    assert(position(list[18]) == 18);
    assert(position(list[19]) == 19);
    assert(position(list[20]) == 20);
    assert(position(list[21]) == 21);
    assert(position(list[22]) == 22);
    assert(position(list[23]) == 23);
    assert(position(list[24]) == 24);
    assert(position(list[25]) == 25);
    assert(position(list[26]) == 26);
    assert(position(list[27]) == 27);
    assert(position(list[28]) == 28);
    assert(position(list[29]) == 29);
    assert(position(list[30]) == 30);
    assert(position(list[31]) == 31);
    assert(position(list[32]) == 32);
    assert(position(list[33]) == 33);
    assert(position(list[34]) == 34);
    assert(position(list[35]) == 35);
    assert(position(list[36]) == 36);
    assert(position(list[37]) == 37);
    assert(position(list[38]) == 38);
    assert(position(list[39]) == 39);
    assert(position(list[40]) == 40);
    assert(position(list[41]) == 41);
    assert(position(list[42]) == 42);
    assert(position(list[43]) == 43);
    assert(position(list[44]) == 44);
    assert(position(list[45]) == 45);
    assert(position(list[46]) == 46);
    assert(position(list[47]) == 47);
}

/// How many of these categories may be swept.
pub open spec fn regenerable_count(cats: Seq<Category>) -> nat
    decreases cats.len(),
{
    if cats.len() == 0 {
        0
    } else {
        regenerable_count(cats.drop_last()) + if cats.last().is_regenerable() {
            1nat
        } else {
            0nat
        }
    }
}

proof fn lemma_count_concat(a: Seq<Category>, b: Seq<Category>)
    ensures
        regenerable_count(a + b) == regenerable_count(a) + regenerable_count(b),
    decreases b.len(),
{
    if b.len() == 0 {
        assert(a + b =~= a);
    } else {
        lemma_count_concat(a, b.drop_last());
        assert((a + b).drop_last() =~= a + b.drop_last());
    }
}

proof fn lemma_count_section(i: int)
    requires
        0 <= i < 6,
    ensures
        regenerable_count(sections()[i].cats) == seq![7nat, 5nat, 2nat, 7nat, 11nat, 0nat][i],
{
    let cats = sections()[i].cats;
    reveal_with_fuel(regenerable_count, 13);
}

/// Thirty-two of the categories may be swept; the other sixteen are for review.
pub proof fn thirty_two_categories_are_regenerable()
    ensures
        regenerable_count(category_list()) == 32,
{
    let s = sections();
    lemma_section_list();
    reveal_with_fuel(cats_of, 7);
    assert(s.drop_last() =~= s.take(5));
    assert(s.take(5).drop_last() =~= s.take(4));
    assert(s.take(4).drop_last() =~= s.take(3));
    assert(s.take(3).drop_last() =~= s.take(2));
    assert(s.take(2).drop_last() =~= s.take(1));
    assert(s.take(1).drop_last() =~= s.take(0));
    lemma_count_concat(cats_of(s.take(5)), s[5].cats);
    lemma_count_concat(cats_of(s.take(4)), s[4].cats);
    lemma_count_concat(cats_of(s.take(3)), s[3].cats);
    lemma_count_concat(cats_of(s.take(2)), s[2].cats);
    lemma_count_concat(cats_of(s.take(1)), s[1].cats);
    lemma_count_concat(cats_of(s.take(0)), s[0].cats);
    lemma_count_section(0);
    lemma_count_section(1);
    lemma_count_section(2);
    lemma_count_section(3);
    lemma_count_section(4);
    lemma_count_section(5);
}

/// The categories together account for every directory: their totals and the
/// disk images add up to the grand total.
pub proof fn the_categories_add_up(result: ScanResultView)
    ensures
        categories_size(result.dirs, category_list()) + files_size(
            result.disk_images,
        ) == result.reclaimable(),
{
    every_category_is_shown_once();
    lemma_categories_size(result.dirs, category_list());
}

/// A section names none of its categories twice.
pub proof fn lemma_section_cats(i: int)
    requires
        0 <= i < sections().len(),
    ensures
        sections()[i].cats.no_duplicates(),
{
    let list = category_list();
    let s = sections();
    every_category_is_shown_once();
    assert(s[0].cats =~= list.subrange(0, 12));
    assert(s[1].cats =~= list.subrange(12, 21));
    assert(s[2].cats =~= list.subrange(21, 25));
    assert(s[3].cats =~= list.subrange(25, 34));
    assert(s[4].cats =~= list.subrange(34, 45));
    assert(s[5].cats =~= list.subrange(45, 48));
}

/// The sections in the order in which they are shown, each with its title and its
/// categories.
pub proof fn categories_are_shown_in_their_section(cat: Category)
    ensures
        sections().len() == 6,
        sections()[0].title == "BUILD ARTIFACTS"@,
        sections()[1].title == "MACOS & XCODE"@,
        sections()[2].title == "APP DATA & CACHES"@,
        sections()[3].title == "WINDOWS SYSTEM"@,
        sections()[4].title == "PACKAGE & TOOL CACHES"@,
        sections()[5].title == "VMS, SDKS & CONTAINERS"@,
        sections()[0].cats.contains(cat) <==> (cat == Category::RustTarget
            || cat == Category::NodeModules
            || cat == Category::PythonBytecode
            || cat == Category::PythonEnv
            || cat == Category::NextJs
            || cat == Category::Nuxt
            || cat == Category::SvelteKit
            || cat == Category::CocoaPods
            || cat == Category::SwiftPmBuild
            || cat == Category::DotNetBuild
            || cat == Category::VisualStudioCache
            || cat == Category::GradleBuild),
        sections()[1].cats.contains(cat) <==> (cat == Category::XcodeDerivedData
            || cat == Category::XcTestDevices
            || cat == Category::IosSimulators
            || cat == Category::SimulatorRuntimes
            || cat == Category::XcodeDeviceSupport
            || cat == Category::XcodeCaches
            || cat == Category::InstrumentsTraces
            || cat == Category::MacOsCaches
            || cat == Category::IphoneBackups),
        sections()[2].cats.contains(cat) <==> (cat == Category::AppWebCache
            || cat == Category::ContainerCaches
            || cat == Category::ExpensiveCache
            || cat == Category::CloudMirror),
        sections()[3].cats.contains(cat) <==> (cat == Category::WindowsTemp
            || cat == Category::WindowsUpdate
            || cat == Category::WindowsOld
            || cat == Category::RecycleBin
            || cat == Category::CrashDumps
            || cat == Category::WindowsCaches
            || cat == Category::ThumbnailCache
            || cat == Category::InstallerCache
            || cat == Category::BrowserCache),
        sections()[4].cats.contains(cat) <==> (cat == Category::NpmCache
            || cat == Category::YarnPnpmCache
            || cat == Category::HomebrewCache
            || cat == Category::UvCache
            || cat == Category::PipCache
            || cat == Category::NugetCache
            || cat == Category::CargoRegistry
            || cat == Category::GradleCache
            || cat == Category::MavenCache
            || cat == Category::GoModCache
            || cat == Category::IdeCache),
        sections()[5].cats.contains(cat) <==> (cat == Category::DockerData
            || cat == Category::AndroidSdk
            || cat == Category::AndroidEmulator),
{
    let s = sections();
    assert(s[0].cats[0] == Category::RustTarget);
    assert(s[0].cats[1] == Category::NodeModules);
    assert(s[0].cats[2] == Category::PythonBytecode);
    assert(s[0].cats[3] == Category::PythonEnv);
    assert(s[0].cats[4] == Category::NextJs);
    assert(s[0].cats[5] == Category::Nuxt);
    assert(s[0].cats[6] == Category::SvelteKit);
    assert(s[0].cats[7] == Category::CocoaPods);
    assert(s[0].cats[8] == Category::SwiftPmBuild);
    assert(s[0].cats[9] == Category::DotNetBuild);
    assert(s[0].cats[10] == Category::VisualStudioCache);
    assert(s[0].cats[11] == Category::GradleBuild);
    assert(s[1].cats[0] == Category::XcodeDerivedData);
    assert(s[1].cats[1] == Category::XcTestDevices);
    assert(s[1].cats[2] == Category::IosSimulators);
    assert(s[1].cats[3] == Category::SimulatorRuntimes);
    assert(s[1].cats[4] == Category::XcodeDeviceSupport);
    assert(s[1].cats[5] == Category::XcodeCaches);
    assert(s[1].cats[6] == Category::InstrumentsTraces);
    assert(s[1].cats[7] == Category::MacOsCaches);
    assert(s[1].cats[8] == Category::IphoneBackups);
    assert(s[2].cats[0] == Category::AppWebCache);
    assert(s[2].cats[1] == Category::ContainerCaches);
    assert(s[2].cats[2] == Category::ExpensiveCache);
    assert(s[2].cats[3] == Category::CloudMirror);
    assert(s[3].cats[0] == Category::WindowsTemp);
    assert(s[3].cats[1] == Category::WindowsUpdate);
    assert(s[3].cats[2] == Category::WindowsOld);
    assert(s[3].cats[3] == Category::RecycleBin);
    assert(s[3].cats[4] == Category::CrashDumps);
    assert(s[3].cats[5] == Category::WindowsCaches);
    assert(s[3].cats[6] == Category::ThumbnailCache);
    assert(s[3].cats[7] == Category::InstallerCache);
    assert(s[3].cats[8] == Category::BrowserCache);
    assert(s[4].cats[0] == Category::NpmCache);
    assert(s[4].cats[1] == Category::YarnPnpmCache);
    assert(s[4].cats[2] == Category::HomebrewCache);
    assert(s[4].cats[3] == Category::UvCache);
    assert(s[4].cats[4] == Category::PipCache);
    assert(s[4].cats[5] == Category::NugetCache);
    assert(s[4].cats[6] == Category::CargoRegistry);
    assert(s[4].cats[7] == Category::GradleCache);
    assert(s[4].cats[8] == Category::MavenCache);
    assert(s[4].cats[9] == Category::GoModCache);
    assert(s[4].cats[10] == Category::IdeCache);
    assert(s[5].cats[0] == Category::DockerData);
    assert(s[5].cats[1] == Category::AndroidSdk);
    assert(s[5].cats[2] == Category::AndroidEmulator);
}

} // verus!
