//! Sizes, ages and paths as the reports show them.

use vstd::prelude::*;

use crate::clock::{elapsed, Timestamp};
use crate::path::{is_inside, same_path, steps_text, FsPath, PathView, StepView};
use crate::text::{decimal, number};

verus! {

pub const KB: u64 = 1_024;

pub const MB: u64 = 1_048_576;

pub const GB: u64 = 1_073_741_824;

// ---------------------------------------------------------------------------
// Sizes
// ---------------------------------------------------------------------------

/// `n / d` to the nearest whole number, a half to the even one.
pub open spec fn nearest(n: nat, d: nat) -> nat {
    let q = n / d;
    let r = n % d;
    if 2 * r > d || (2 * r == d && q % 2 == 1) {
        q + 1
    } else {
        q
    }
}

/// The distance between the two numbers of 53 significant bits around `n`.
pub open spec fn spacing(n: nat) -> nat
    decreases n,
{
    if n < 0x20_0000_0000_0000 {
        1
    } else {
        2 * spacing(n / 2)
    }
}

/// `n` to 53 significant bits, which is what a double keeps of it.
pub open spec fn as_double(n: nat) -> nat {
    nearest(n, spacing(n)) * spacing(n)
}

/// `n` tenths with one digit after the point.
pub open spec fn tenths_text(n: nat) -> Seq<char> {
    decimal(n / 10) + "."@ + decimal(n % 10)
}

/// A size in the largest unit that it fills: gigabytes to a tenth, megabytes
/// and kilobytes in whole ones.
pub open spec fn size_text(bytes: nat) -> Seq<char> {
    if bytes >= GB {
        tenths_text(nearest(10 * as_double(bytes), GB as nat)) + " GB"@
    } else if bytes >= MB {
        decimal(nearest(bytes, MB as nat)) + " MB"@
    } else if bytes >= KB {
        decimal(nearest(bytes, KB as nat)) + " KB"@
    } else {
        decimal(bytes) + " B"@
    }
}

fn to_nearest(n: u128, d: u128) -> (r: u128)
    requires
        0 < d < 0x1_0000_0000_0000_0000,
        n < 0x1_0000_0000_0000_0000_0000,
    ensures
        r == nearest(n as nat, d as nat),
        r <= n / d + 1,
{
    let q = n / d;
    let rest = n % d;
    assert(q <= n) by (nonlinear_arith)
        requires
            q == n / d,
            d > 0,
    ;
    assert(rest < d);
    if 2 * rest > d || (2 * rest == d && q % 2 == 1) {
        q + 1
    } else {
        q
    }
}

fn double_spacing(n: u64) -> (r: u64)
    ensures
        r == spacing(n as nat),
        1 <= r <= 0x20_0000_0000_0000,
        r <= n + 1,
    decreases n,
{
    if n < 0x20_0000_0000_0000 {
        1
    } else {
        let half = double_spacing(n / 2);
        assert(half <= 0x400) by {
            lemma_spacing(n as nat / 2);
        }
        2 * half
    }
}

proof fn lemma_spacing(n: nat)
    requires
        n <= u64::MAX / 2,
    ensures
        1 <= spacing(n) <= 0x400,
{
    reveal_with_fuel(spacing, 12);
}

pub fn fmt_size(bytes: u64) -> (r: String)
    ensures
        r@ == size_text(bytes as nat),
{
    if bytes >= GB {
        let gap = double_spacing(bytes);
        let steps = to_nearest(bytes as u128, gap as u128);
        assert(steps * gap <= bytes + gap) by (nonlinear_arith)
            requires
                steps <= bytes as int / gap as int + 1,
                gap > 0,
                steps >= 0,
        ;
        let double = steps * gap as u128;
        let mut out = tenths(to_nearest(10 * double, GB as u128));
        out.append(" GB");
        out
    } else if bytes >= MB {
        let mut out = number(to_nearest(bytes as u128, MB as u128));
        out.append(" MB");
        out
    } else if bytes >= KB {
        let mut out = number(to_nearest(bytes as u128, KB as u128));
        out.append(" KB");
        out
    } else {
        let mut out = number(bytes as u128);
        out.append(" B");
        out
    }
}

fn tenths(n: u128) -> (r: String)
    ensures
        r@ == tenths_text(n as nat),
{
    let mut out = number(n / 10);
    out.append(".");
    out.append(number(n % 10).as_str());
    out
}

// ---------------------------------------------------------------------------
// Ages
// ---------------------------------------------------------------------------

/// Whole days up to a week, whole weeks up to a month, whole months up to a
/// year, then years of 365 days to the nearest tenth.
pub open spec fn days_text(days: nat) -> Seq<char> {
    if days < 7 {
        decimal(days) + " days"@
    } else if days < 30 {
        decimal(days / 7) + " weeks"@
    } else if days < 365 {
        decimal(days / 30) + " months"@
    } else {
        tenths_text(nearest(10 * days, 365)) + " years"@
    }
}

/// How long before `now` something was last touched.
pub open spec fn age_text(modified: Timestamp, now: Timestamp) -> Seq<char> {
    match elapsed(modified, now) {
        Some(age) => days_text((age / 1_000_000_000 / 86_400) as nat),
        None => "unknown age"@,
    }
}

/// The age of something last touched at `modified`, seen at `now`.
pub fn fmt_age_at(modified: Timestamp, now: Timestamp) -> (r: String)
    ensures
        r@ == age_text(modified, now),
{
    match modified.age(&now) {
        Some(age) => {
            let days = age / 1_000_000_000 / 86_400;
            if days < 7 {
                let mut out = number(days);
                out.append(" days");
                out
            } else if days < 30 {
                let mut out = number(days / 7);
                out.append(" weeks");
                out
            } else if days < 365 {
                let mut out = number(days / 30);
                out.append(" months");
                out
            } else {
                let mut out = tenths(nearest_tenth_of_years(days));
                out.append(" years");
                out
            }
        },
        None => "unknown age".to_owned(),
    }
}

fn nearest_tenth_of_years(days: u128) -> (r: u128)
    requires
        days <= u128::MAX / 86_400,
    ensures
        r == nearest((10 * days) as nat, 365),
{
    let n = 10 * days;
    let q = n / 365;
    let rest = n % 365;
    if 2 * rest > 365 || (2 * rest == 365 && q % 2 == 1) {
        q + 1
    } else {
        q
    }
}

/// The age of something last touched at `modified`, by the system's clock.
pub fn fmt_age(modified: Timestamp) -> (r: String)
    ensures
        exists|now: Timestamp|
            -(u64::MAX + 1) * 1_000_000_000 < now.nanos < (u64::MAX + 1) * 1_000_000_000 && r@
                == #[trigger] age_text(modified, now),
{
    let now = Timestamp::now();
    fmt_age_at(modified, now)
}

// ---------------------------------------------------------------------------
// Paths
// ---------------------------------------------------------------------------

/// A path as it is written, with the home directory in front of it as `~`.
pub open spec fn path_text(path: PathView, home: PathView, sep: char) -> Seq<char> {
    if same_path(path, home) {
        "~"@
    } else if is_inside(path, home) {
        "~"@ + seq![sep] + path.below(home.steps.len() as int).text()
    } else {
        path.text()
    }
}

pub fn display_path(path: &FsPath, home: &FsPath, sep: char) -> (r: String)
    ensures
        r@ == path_text(path@, home@, sep),
{
    let ghost own = path@.parts();
    match path.strip_prefix(home) {
        Some(rest) => {
            if rest.is_empty() {
                assert(own.subrange(0, home@.parts().len() as int) =~= own);
                "~".to_owned()
            } else {
                assert(own.len() != home@.parts().len());
                let mut out = "~".to_owned();
                let ghost tilde = out@;
                out.push(sep);
                assert(out@ =~= tilde + seq![sep]);
                out.append(rest.display().as_str());
                out
            }
        },
        None => {
            proof {
                crate::path::lemma_inside(path@, home@, home@);
                crate::path::lemma_inside(home@, home@, home@);
            }
            path.display()
        },
    }
}

// ---------------------------------------------------------------------------
// Laws
// ---------------------------------------------------------------------------

/// Rounding goes to the nearest whole number, and from a half to the even one.
pub proof fn rounding_goes_to_the_nearest(n: nat, d: nat)
    requires
        d > 0,
    ensures
        -(d as int) <= 2 * (nearest(n, d) * d - n) <= d,
        2 * (nearest(n, d) * d - n) == d || 2 * (n - nearest(n, d) * d) == d ==> nearest(n, d) % 2
            == 0,
{
    let q = n / d;
    let r = n % d;
    assert(n == q * d + r && 0 <= r < d) by (nonlinear_arith)
        requires
            d > 0,
            q == n / d,
            r == n % d,
    ;
    assert((q + 1) * d == q * d + d) by (nonlinear_arith);
}

/// A double holds 53 bits of a number: all of it below 2^53, and above that the
/// nearest multiple of the distance that leaves 53 bits in front.
pub proof fn a_double_keeps_53_bits(n: nat)
    ensures
        n < 9_007_199_254_740_992 ==> as_double(n) == n,
        n >= 9_007_199_254_740_992 ==> 4_503_599_627_370_496 * spacing(n) <= n
            < 9_007_199_254_740_992 * spacing(n),
        exists|k: nat| spacing(n) == #[trigger] vstd::arithmetic::power2::pow2(k),
        as_double(n) % spacing(n) == 0,
        -(spacing(n) as int) <= 2 * (as_double(n) - n) <= spacing(n),
{
    lemma_spacing_bits(n);
    let gap = spacing(n);
    rounding_goes_to_the_nearest(n, gap);
    let q = nearest(n, gap);
    vstd::arithmetic::div_mod::lemma_mod_multiples_basic(q as int, gap as int);
}

proof fn lemma_spacing_bits(n: nat)
    ensures
        spacing(n) >= 1,
        n < 9_007_199_254_740_992 ==> spacing(n) == 1,
        n >= 9_007_199_254_740_992 ==> 4_503_599_627_370_496 * spacing(n) <= n
            < 9_007_199_254_740_992 * spacing(n),
        exists|k: nat| spacing(n) == #[trigger] vstd::arithmetic::power2::pow2(k),
    decreases n,
{
    if n < 9_007_199_254_740_992 {
        vstd::arithmetic::power2::lemma2_to64();
        assert(spacing(n) == vstd::arithmetic::power2::pow2(0));
    } else {
        lemma_spacing_bits(n / 2);
        let k = choose|k: nat| spacing(n / 2) == #[trigger] vstd::arithmetic::power2::pow2(k);
        vstd::arithmetic::power2::lemma_pow2_unfold(k + 1);
        assert(spacing(n) == vstd::arithmetic::power2::pow2(k + 1));
    }
}

/// A size is written in the largest of four units that it fills, each 1024 of the
/// one below: gigabytes in tenths, the others in whole ones.
pub proof fn a_size_is_written_in_its_unit(bytes: nat)
    ensures
        bytes < 1_024 ==> size_text(bytes) == decimal(bytes) + " B"@,
        1_024 <= bytes < 1_048_576 ==> size_text(bytes) == decimal(nearest(bytes, 1_024)) + " KB"@,
        1_048_576 <= bytes < 1_073_741_824 ==> size_text(bytes) == decimal(
            nearest(bytes, 1_048_576),
        ) + " MB"@,
        bytes >= 1_073_741_824 ==> ({
            let tenths = nearest(10 * as_double(bytes), 1_073_741_824);
            size_text(bytes) == decimal(tenths / 10) + "."@ + decimal(tenths % 10) + " GB"@
        }),
{
}

/// An age is written in days below a week, in weeks below a month of thirty days,
/// in months below a year of 365 days, and in tenths of years from there on. What
/// was touched after now has no age.
pub proof fn an_age_is_written_in_its_unit(modified: Timestamp, now: Timestamp)
    ensures
        now.nanos < modified.nanos ==> age_text(modified, now) == "unknown age"@,
        now.nanos >= modified.nanos ==> ({
            let days = ((now.nanos - modified.nanos) / 86_400_000_000_000) as nat;
            let tenths = nearest(10 * days, 365);
            &&& days < 7 ==> age_text(modified, now) == decimal(days) + " days"@
            &&& 7 <= days < 30 ==> age_text(modified, now) == decimal(days / 7) + " weeks"@
            &&& 30 <= days < 365 ==> age_text(modified, now) == decimal(days / 30) + " months"@
            &&& days >= 365 ==> age_text(modified, now) == decimal(tenths / 10) + "."@ + decimal(
                tenths % 10,
            ) + " years"@
        }),
{
}

/// The home directory is shown as `~`, and a path below it as `~`, a separator and
/// what is written of the path behind the home directory. Any other path is shown
/// as it is written.
pub proof fn paths_are_shown_from_home(path: PathView, home: PathView, sep: char)
    ensures
        path.parts() == home.parts() ==> path_text(path, home, sep) == "~"@,
        home.parts().is_prefix_of(path.parts()) && path.parts() != home.parts() ==> ({
            let n = home.steps.len() as int;
            let shown = path_text(path, home, sep);
            &&& shown[0] == '~'
            &&& shown[1] == sep
            &&& path.text() == steps_text(path.steps.take(n)) + path.steps[n].gap + shown.skip(2)
                + path.tail
        }),
        !home.parts().is_prefix_of(path.parts()) ==> path_text(path, home, sep) == path.text(),
{
    reveal_strlit("~");
    if home.parts().is_prefix_of(path.parts()) && path.parts() != home.parts() {
        let n = home.steps.len() as int;
        let rest = path.steps.skip(n);
        let shown = path_text(path, home, sep);
        if rest.len() == 0 {
            assert(path.parts().take(n) =~= path.parts());
            assert(home.parts() =~= path.parts());
        }
        assert(path.below(n).text() =~= steps_text(path.below(n).steps));
        assert(shown.skip(2) =~= path.below(n).text());
        lemma_steps_split(path.steps, n);
        lemma_first_gap(rest);
    }
}

proof fn lemma_steps_split(steps: Seq<StepView>, n: int)
    requires
        0 <= n <= steps.len(),
    ensures
        steps_text(steps) == steps_text(steps.take(n)) + steps_text(steps.skip(n)),
    decreases steps.len() - n,
{
    if n == steps.len() {
        assert(steps.take(n) =~= steps);
        assert(steps.skip(n).len() == 0);
    } else {
        let front = steps.drop_last();
        lemma_steps_split(front, n);
        assert(front.take(n) =~= steps.take(n));
        assert(steps.skip(n).drop_last() =~= front.skip(n));
    }
}

proof fn lemma_first_gap(steps: Seq<StepView>)
    requires
        steps.len() > 0,
    ensures
        steps_text(steps) == steps[0].gap + steps_text(
            steps.update(0, StepView { gap: Seq::empty(), ..steps[0] }),
        ),
    decreases steps.len(),
{
    let bare = steps.update(0, StepView { gap: Seq::empty(), ..steps[0] });
    let front = steps.drop_last();
    if front.len() == 0 {
        assert(bare.drop_last() =~= front);
        assert(steps_text(front) =~= Seq::empty());
        assert(steps_text(steps) =~= steps[0].gap + steps_text(bare));
    } else {
        lemma_first_gap(front);
        assert(bare.drop_last() =~= front.update(
            0,
            StepView { gap: Seq::empty(), ..front[0] },
        ));
        assert(steps_text(steps) =~= steps[0].gap + steps_text(bare));
    }
}

} // verus!
