use diskscout::clock::Timestamp;
use diskscout::format::{display_path, fmt_age, fmt_age_at, fmt_size};
use diskscout::path::FsPath;
use diskscout::text::{
    left_aligned, lines, number, right_aligned, signed_number, text_before, trim,
};

fn ago(secs: i128) -> Timestamp {
    Timestamp {
        nanos: Timestamp::now().nanos - secs * 1_000_000_000,
    }
}

#[test]
fn fmt_size_picks_the_largest_fitting_unit() {
    assert_eq!(fmt_size(0), "0 B");
    assert_eq!(fmt_size(1_023), "1023 B");
    assert_eq!(fmt_size(1_024), "1 KB");
    assert_eq!(fmt_size(1_048_576), "1 MB");
    assert_eq!(fmt_size(1_073_741_824), "1.0 GB");
    assert_eq!(fmt_size(3_221_225_472), "3.0 GB");
}

#[test]
fn fmt_age_scales_from_days_to_years() {
    assert_eq!(fmt_age(ago(0)), "0 days");
    assert_eq!(fmt_age(ago(6 * 86_400)), "6 days");
    assert_eq!(fmt_age(ago(14 * 86_400)), "2 weeks");
    assert_eq!(fmt_age(ago(60 * 86_400)), "2 months");
    assert_eq!(fmt_age(ago(730 * 86_400)), "2.0 years");
}

#[test]
fn fmt_age_reports_future_timestamps_as_unknown() {
    assert_eq!(fmt_age(ago(-86_400)), "unknown age");
}

#[test]
fn display_path_abbreviates_home() {
    let sep = std::path::MAIN_SEPARATOR;
    let home = FsPath::new("/Users/someone");
    assert_eq!(display_path(&home, &home, sep), "~");
    assert_eq!(
        display_path(&home.join("Developer").join("x"), &home, sep),
        format!("~{sep}Developer{sep}x")
    );
    assert_eq!(
        display_path(&FsPath::new("/opt/homebrew"), &home, '/'),
        "/opt/homebrew"
    );
}

#[test]
fn a_path_is_displayed_as_it_was_written() {
    let home = FsPath::new("/Users/someone");
    let root = FsPath::new("/Volumes//disk/./work/");
    assert_eq!(display_path(&root.join("x"), &home, '/'), "/Volumes//disk/./work/x");
    assert_eq!(display_path(&root, &home, '/'), "/Volumes//disk/./work/");
    let inside = FsPath::new("/Users/someone//dev//y/");
    assert_eq!(display_path(&inside, &home, '/'), "~/dev//y");
    assert_eq!(display_path(&FsPath::new("/Users//someone/"), &home, '/'), "~");
}

/// What the sizes look like when they are divided as floating-point numbers.
fn by_division(bytes: u64) -> String {
    if bytes >= 1_073_741_824 {
        format!("{:.1} GB", bytes as f64 / 1_073_741_824.0)
    } else if bytes >= 1_048_576 {
        format!("{:.0} MB", bytes as f64 / 1_048_576.0)
    } else if bytes >= 1_024 {
        format!("{:.0} KB", bytes as f64 / 1_024.0)
    } else {
        format!("{bytes} B")
    }
}

#[test]
fn sizes_round_as_floating_point_numbers_do() {
    let mut bytes: u64 = 1;
    for _ in 0..20_000 {
        // A walk over all magnitudes.
        bytes = bytes.wrapping_mul(6_364_136_223_846_793_005).wrapping_add(1);
        for shift in [0, 7, 16, 22, 30, 33, 41, 50] {
            let n = bytes >> shift;
            assert_eq!(fmt_size(n), by_division(n), "{n}");
        }
    }
    // Ties, and values that a 53-bit number cannot hold.
    for n in [
        1_536,
        2_560,
        1_572_864,
        2_621_440,
        1_127_428_915,
        1_127_428_916,
        1_610_612_736 + 53_687_091,
        u64::MAX,
        u64::MAX - 1_024,
        (1 << 53) + 1,
        (1 << 60) + 128,
    ] {
        assert_eq!(fmt_size(n), by_division(n), "{n}");
    }
}

#[test]
fn ages_round_as_floating_point_numbers_do() {
    let now = Timestamp { nanos: 2_000_000 * 86_400 * 1_000_000_000 };
    for days in 365..20_000u64 {
        let then = Timestamp {
            nanos: now.nanos - (days as i128) * 86_400 * 1_000_000_000,
        };
        assert_eq!(
            fmt_age_at(then, now),
            format!("{:.1} years", days as f64 / 365.0),
            "{days}"
        );
    }
    let then = Timestamp { nanos: now.nanos - 8 * 86_400 * 1_000_000_000 + 1 };
    assert_eq!(fmt_age_at(then, now), "1 weeks");
}

#[test]
fn the_clock_is_running() {
    let first = Timestamp::now();
    // The first of January 2020.
    assert!(first.nanos > 1_577_836_800 * 1_000_000_000);
    assert!(Timestamp::now().nanos >= first.nanos);
    assert_eq!(Timestamp::unix_epoch().nanos, 0);
    assert_eq!(Timestamp::from_epoch(Err((1, 5))).nanos, -1_000_000_005);
}

#[test]
fn text_is_split_trimmed_and_padded() {
    assert_eq!(trim(" \t a b \r\n"), "a b");
    assert_eq!(trim("\u{3000}x\u{a0}"), "x");
    assert_eq!(lines("a\r\nb\n\nc"), vec!["a", "b", "", "c"]);
    assert_eq!(lines("a\n"), vec!["a"]);
    assert_eq!(text_before("com.x.y(1.2)", '('), "com.x.y");
    assert_eq!(text_before("plain", '('), "plain");
    assert_eq!(right_aligned("9 MB", 10), "      9 MB");
    assert_eq!(left_aligned("äb", 4), "äb  ");
    assert_eq!(left_aligned("longer", 4), "longer");
    assert_eq!(number(u128::MAX), u128::MAX.to_string());
    assert_eq!(signed_number(-2_147_483_648), "-2147483648");
    assert_eq!(signed_number(101), "101");
}
